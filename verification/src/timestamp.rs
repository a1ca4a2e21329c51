//! The optional millisecond Unix timestamp carried by every metric.
use vstd::prelude::*;

use crate::atomic::AtomicI64;

verus! {

/// The sentinel that encodes an unset timestamp.
pub const NO_VALUE: i64 = i64::MIN;

/// An optional Unix timestamp in milliseconds.
///
/// The minimum signed value is reserved as the "unset" sentinel, so it can
/// never be stored as a real timestamp.
#[derive(Debug, Clone)]
pub struct Timestamp {
    /// The stored value, `NO_VALUE` when unset.
    pub cell: AtomicI64,
}

impl Timestamp {
    /// The optional value this timestamp denotes.
    pub open spec fn view(&self) -> Option<i64> {
        if self.cell.value == NO_VALUE {
            Option::None
        } else {
            Option::Some(self.cell.value)
        }
    }

    /// Makes an unset timestamp.
    pub fn new() -> (r: Self)
        ensures
            r@ is None,
    {
        Timestamp { cell: AtomicI64::new(NO_VALUE) }
    }

    /// Returns the value of this timestamp.
    pub fn get(&self) -> (r: Option<i64>)
        ensures
            r == self@,
    {
        let v = self.cell.get();
        if v == NO_VALUE {
            None
        } else {
            Some(v)
        }
    }

    /// Clears the value of this timestamp.
    pub fn clear(&mut self)
        ensures
            final(self)@ is None,
    {
        self.cell.set(NO_VALUE);
    }

    /// Sets the value of this timestamp to `timestamp`.
    pub fn set(&mut self, timestamp: i64)
        requires
            timestamp != NO_VALUE,
        ensures
            final(self)@ == Option::Some(timestamp),
    {
        self.cell.set(timestamp);
    }

    /// Sets the value from a duration relative to the Unix epoch: `secs`
    /// whole seconds and `subsec_nanos` nanoseconds, before the epoch when
    /// `before_epoch` holds.
    pub fn set_time(&mut self, before_epoch: bool, secs: u64, subsec_nanos: u32)
        requires
            subsec_nanos < 1_000_000_000,
            secs * 1000 + 1000 <= i64::MAX,
        ensures
            final(self)@ == Option::Some(
                if before_epoch {
                    -(secs * 1000 + subsec_nanos / 1_000_000)
                } else {
                    (secs * 1000 + subsec_nanos / 1_000_000) as int
                } as i64,
            ),
    {
        let millis: i64 = (secs * 1000 + (subsec_nanos / 1_000_000) as u64) as i64;
        if before_epoch {
            self.set(-millis);
        } else {
            self.set(millis);
        }
    }

    /// Sets the value of this timestamp to the current Unix time in
    /// milliseconds.
    pub fn set_now(&mut self)
        ensures
            final(self)@ is Some,
    {
        let ms = now_unix_millis();
        if ms == NO_VALUE {
            self.set(NO_VALUE + 1);
        } else {
            self.set(ms);
        }
    }
}

/// Relies on std::time::SystemTime::now and SystemTime::duration_since: the
/// number of milliseconds between the Unix epoch and the moment of the call,
/// negative before the epoch, truncated into the 64-bit range.  Nothing is
/// assumed of the value.
#[verifier::external_body]
pub(crate) fn now_unix_millis() -> i64 {
    match std::time::SystemTime::now().duration_since(std::time::UNIX_EPOCH) {
        Ok(d) => d.as_millis() as i64,
        Err(e) => -(e.duration().as_millis() as i64),
    }
}

} // verus!
