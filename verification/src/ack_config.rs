//! Acknowledgement delay configuration: a random delay drawn from a
//! configured window, by default [50 ms, 200 ms], or [0.75x, 1.25x]
//! of a chosen central delay.

use vstd::prelude::*;

use crate::util::random_in_range;

verus! {

#[derive(Debug, Clone, Copy, PartialEq, Eq, Structural)]
pub struct AckConfig {
    pub delay_min_ms: u64,
    pub delay_max_ms: u64,
}

impl AckConfig {
    pub fn new(delay_min_ms: u64, delay_max_ms: u64) -> (r: AckConfig)
        ensures
            r.delay_min_ms == delay_min_ms,
            r.delay_max_ms == delay_max_ms,
    {
        AckConfig { delay_min_ms, delay_max_ms }
    }

    /// The window around a central delay: plus or minus a quarter,
    /// rounded down.
    pub fn from_base_delay(base_delay_ms: u64) -> (r: AckConfig)
        requires
            5 * base_delay_ms <= u64::MAX,
        ensures
            r.delay_min_ms == base_delay_ms * 3 / 4,
            r.delay_max_ms == base_delay_ms * 5 / 4,
            r.delay_min_ms <= r.delay_max_ms,
    {
        AckConfig { delay_min_ms: base_delay_ms * 3 / 4, delay_max_ms: base_delay_ms * 5 / 4 }
    }

    /// A delay drawn from the configured window.
    pub fn get_random_delay_ms(&self) -> (r: u64)
        requires
            self.delay_min_ms <= self.delay_max_ms,
        ensures
            self.delay_min_ms <= r <= self.delay_max_ms,
    {
        random_in_range(self.delay_min_ms, self.delay_max_ms)
    }
}

impl Default for AckConfig {
    /// The default window, [50 ms, 200 ms].
    fn default() -> (r: AckConfig)
        ensures
            r.delay_min_ms == 50,
            r.delay_max_ms == 200,
    {
        AckConfig::new(50, 200)
    }
}

/// A delay drawn from a configuration's window.
pub fn get_random_ack_delay_ms(config: &AckConfig) -> (r: u64)
    requires
        config.delay_min_ms <= config.delay_max_ms,
    ensures
        config.delay_min_ms <= r <= config.delay_max_ms,
{
    config.get_random_delay_ms()
}

} // verus!
