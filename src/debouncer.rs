//! A debounced input level, read back as high or low.
use vstd::prelude::*;

use crate::button::{debounce_samples, samples_in};

verus! {

/// The pin level at which the input counts as active; it sets where the
/// debouncer starts.
#[derive(Debug, Clone, Copy, PartialEq, Eq, Structural)]
pub enum Active {
    Low,
    High,
}

/// Debounces a pin by integration: a counter that each sample moves one step
/// toward 0 (pin low) or toward `max` (pin high); the level turns low at 0 and
/// high at `max`, and keeps its value in between.
pub struct Debouncer {
    integrator: u8,
    max: u8,
    output: bool,
}

impl Debouncer {
    /// The integration counter.
    pub closed spec fn integrator(&self) -> u8 {
        self.integrator
    }

    /// The value at which the level turns high.
    pub closed spec fn max(&self) -> u8 {
        self.max
    }

    /// The debounced level: `true` for high.
    pub closed spec fn output(&self) -> bool {
        self.output
    }

    /// The counter never passes `max`.
    pub open spec fn wf(&self) -> bool {
        self.integrator() <= self.max()
    }

    /// A debouncer that counts `debounce_time_ms` worth of samples and starts
    /// at rest: high for an active-low pin, low for an active-high one.
    pub fn new(active_mode: Active, debounce_time_ms: u16, sample_frequency: u16) -> (r: Self)
        ensures
            r.wf(),
            r.max() == debounce_samples(debounce_time_ms, sample_frequency),
            r.integrator() == (if active_mode == Active::Low { r.max() } else { 0 }),
            r.output() == (active_mode == Active::Low),
    {
        let max = samples_in(debounce_time_ms, sample_frequency);
        let integrator = match active_mode {
            Active::Low => max,
            Active::High => 0,
        };
        let output = match active_mode {
            Active::Low => true,
            Active::High => false,
        };
        Self { integrator, max, output }
    }

    /// Takes one sample of the pin, `pin_low` when it reads low.
    pub fn update(&mut self, pin_low: bool)
        requires
            old(self).wf(),
        ensures
            final(self).wf(),
            final(self).max() == old(self).max(),
            final(self).integrator() == (if pin_low {
                if old(self).integrator() == 0 { 0 } else { (old(self).integrator() - 1) as u8 }
            } else if old(self).integrator() < old(self).max() {
                (old(self).integrator() + 1) as u8
            } else {
                old(self).integrator()
            }),
            final(self).output() == (if final(self).integrator() == 0 {
                false
            } else if final(self).integrator() >= final(self).max() {
                true
            } else {
                old(self).output()
            }),
    {
        if pin_low {
            if self.integrator > 0 {
                self.integrator = self.integrator - 1;
            }
        } else if self.integrator < self.max {
            self.integrator = self.integrator + 1;
        }
        if self.integrator == 0 {
            self.output = false;
        } else if self.integrator >= self.max {
            self.output = true;
            self.integrator = self.max;
        }
    }

    /// Whether the debounced level is high.
    pub fn is_high(&self) -> (r: bool)
        ensures
            r == self.output(),
    {
        self.output
    }

    /// Whether the debounced level is low.
    pub fn is_low(&self) -> (r: bool)
        ensures
            r == !self.output(),
    {
        !self.output
    }
}

} // verus!
