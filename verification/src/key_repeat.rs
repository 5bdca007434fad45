//! Key repeat settings.
use vstd::prelude::*;

verus! {

/// Key repeat settings.
///
/// Key repeat is configured using two values (both in milliseconds):
///
/// - The **`delay`** after the key has been pressed, after which key repeat events will be emitted.
/// - The **`period`** between successive key repeat events.
#[derive(Clone, Copy, Debug, PartialEq, Eq, Structural)]
pub struct KeyRepeat {
    pub delay: u32,
    pub period: u32,
}

impl KeyRepeat {
    /// Creates key repeat settings.
    pub fn new(delay: u32, period: u32) -> (settings: Self)
        ensures
            settings == (KeyRepeat { delay, period }),
    {
        KeyRepeat { delay, period }
    }

    /// Returns the delay before keys are repeated.
    pub fn delay(&self) -> (delay: u32)
        ensures
            delay == self.delay,
    {
        self.delay
    }

    /// Returns the period between repetitions.
    pub fn period(&self) -> (period: u32)
        ensures
            period == self.period,
    {
        self.period
    }
}

} // verus!
