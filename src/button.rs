//! The push button of the rotary encoder: a debouncer over the sampled pin
//! level and the press/release events that follow from it.
use vstd::prelude::*;

verus! {

/// A change of the button.
#[derive(Debug, Clone, Copy, PartialEq, Eq, Structural)]
pub enum ButtonEvent {
    /// The button has just been pressed down.
    Press,
    /// The button was released.
    Release,
}

#[derive(Debug, Clone, Copy, PartialEq, Eq, Structural)]
enum ButtonState {
    Released,
    Pressed,
}

/// The pin level at which the button counts as pressed.
#[derive(Debug, Clone, Copy, PartialEq, Eq, Structural)]
pub enum Active {
    Low,
    High,
}

/// The number of samples, at `sample_frequency` per second, in
/// `debounce_time_ms` milliseconds, at most 255.
pub open spec fn debounce_samples(debounce_time_ms: u16, sample_frequency: u16) -> u8 {
    let n = debounce_time_ms as int * sample_frequency as int / 1000;
    if n > 255 { 255 } else { n as u8 }
}

pub(crate) fn samples_in(debounce_time_ms: u16, sample_frequency: u16) -> (r: u8)
    ensures
        r == debounce_samples(debounce_time_ms, sample_frequency),
{
    assert(debounce_time_ms as int * sample_frequency as int <= 0xffff * 0xffff) by (nonlinear_arith)
        requires
            debounce_time_ms <= 0xffff,
            sample_frequency <= 0xffff,
    ;
    let product = debounce_time_ms as u32 * sample_frequency as u32;
    let n = product / 1000;
    if n > 255 { 255 } else { n as u8 }
}

/// Debounces a pin by integration: a counter that each sample moves one step
/// toward 0 (pin low) or toward `max` (pin high); the output turns low at 0 and
/// high at `max`, and keeps its value in between.
pub struct Debouncer {
    integrator: u8,
    max: u8,
    output: bool,
    active_mode: Active,
}

impl Debouncer {
    /// The integration counter.
    pub closed spec fn integrator(&self) -> u8 {
        self.integrator
    }

    /// The value at which the output turns high.
    pub closed spec fn max(&self) -> u8 {
        self.max
    }

    /// The debounced level: `true` for high.
    pub closed spec fn output(&self) -> bool {
        self.output
    }

    /// The level at which the button counts as pressed.
    pub closed spec fn active_mode(&self) -> Active {
        self.active_mode
    }

    /// The counter never passes `max`.
    pub open spec fn wf(&self) -> bool {
        self.integrator() <= self.max()
    }

    /// Whether the debounced level is the active one.
    pub open spec fn pressed(&self) -> bool {
        match self.active_mode() {
            Active::High => self.output(),
            Active::Low => !self.output(),
        }
    }

    /// A debouncer that counts `debounce_time_ms` worth of samples and starts
    /// at rest: an active-low pin starts high, an active-high pin low.
    pub fn new(active_mode: Active, debounce_time_ms: u16, sample_frequency: u16) -> (r: Self)
        ensures
            r.wf(),
            r.max() == debounce_samples(debounce_time_ms, sample_frequency),
            r.active_mode() == active_mode,
            r.integrator() == (if active_mode == Active::Low { r.max() } else { 0 }),
            r.output() == (active_mode == Active::Low),
            !r.pressed(),
    {
        let max = samples_in(debounce_time_ms, sample_frequency);
        let integrator = match active_mode {
            Active::Low => max,
            Active::High => 0,
        };
        let output = match active_mode {
            Active::Low => true,
            Active::High => false,
        };
        Self { integrator, max, output, active_mode }
    }

    /// Takes one sample of the pin, `pin_low` when it reads low.
    pub fn poll(&mut self, pin_low: bool)
        requires
            old(self).wf(),
        ensures
            final(self).wf(),
            final(self).max() == old(self).max(),
            final(self).active_mode() == old(self).active_mode(),
            final(self).integrator() == (if pin_low {
                if old(self).integrator() == 0 { 0 } else { (old(self).integrator() - 1) as u8 }
            } else if old(self).integrator() < old(self).max() {
                (old(self).integrator() + 1) as u8
            } else {
                old(self).integrator()
            }),
            final(self).output() == (if final(self).integrator() == 0 {
                false
            } else if final(self).integrator() >= final(self).max() {
                true
            } else {
                old(self).output()
            }),
    {
        if pin_low {
            if self.integrator > 0 {
                self.integrator = self.integrator - 1;
            }
        } else if self.integrator < self.max {
            self.integrator = self.integrator + 1;
        }
        if self.integrator == 0 {
            self.output = false;
        } else if self.integrator >= self.max {
            self.output = true;
        }
    }

    /// Whether the debounced level is the active one.
    pub fn is_pressed(&self) -> (r: bool)
        ensures
            r == self.pressed(),
    {
        match self.active_mode {
            Active::High => self.output,
            Active::Low => !self.output,
        }
    }
}

/// A debounced button that reports each press and each release once.
pub struct Button {
    pin: Debouncer,
    button_state: ButtonState,
}

impl Button {
    /// The debouncer of the pin.
    pub closed spec fn pin(&self) -> Debouncer {
        self.pin
    }

    /// Whether the last event was a press.
    pub closed spec fn down(&self) -> bool {
        self.button_state == ButtonState::Pressed
    }

    /// A button, taken as released, on a debounced pin.
    pub fn new(pin: Debouncer) -> (r: Self)
        ensures
            r.pin() == pin,
            !r.down(),
    {
        Self { pin, button_state: ButtonState::Released }
    }

    /// Whether the debounced pin is at its active level.
    pub fn is_pressed(&self) -> (r: bool)
        ensures
            r == self.pin().pressed(),
    {
        self.pin.is_pressed()
    }

    /// Takes one sample of the pin, `pin_low` when it reads low: `Press` when
    /// the debounced pin has become active since the last event, `Release`
    /// when it has become inactive, nothing otherwise.
    pub fn poll(&mut self, pin_low: bool) -> (r: Option<ButtonEvent>)
        requires
            old(self).pin().wf(),
        ensures
            final(self).pin().wf(),
            final(self).pin().max() == old(self).pin().max(),
            final(self).pin().active_mode() == old(self).pin().active_mode(),
            final(self).pin().integrator() == (if pin_low {
                if old(self).pin().integrator() == 0 {
                    0
                } else {
                    (old(self).pin().integrator() - 1) as u8
                }
            } else if old(self).pin().integrator() < old(self).pin().max() {
                (old(self).pin().integrator() + 1) as u8
            } else {
                old(self).pin().integrator()
            }),
            final(self).pin().output() == (if final(self).pin().integrator() == 0 {
                false
            } else if final(self).pin().integrator() >= final(self).pin().max() {
                true
            } else {
                old(self).pin().output()
            }),
            final(self).down() == final(self).pin().pressed(),
            r == (if !old(self).down() && final(self).pin().pressed() {
                Some(ButtonEvent::Press)
            } else if old(self).down() && !final(self).pin().pressed() {
                Some(ButtonEvent::Release)
            } else {
                None
            }),
    {
        self.pin.poll(pin_low);
        match self.button_state {
            ButtonState::Released => {
                if self.pin.is_pressed() {
                    self.button_state = ButtonState::Pressed;
                    return Some(ButtonEvent::Press);
                }
            },
            ButtonState::Pressed => {
                if !self.pin.is_pressed() {
                    self.button_state = ButtonState::Released;
                    return Some(ButtonEvent::Release);
                }
            },
        }
        None
    }
}

} // verus!
