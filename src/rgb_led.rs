//! The integer parts of driving the WS2812 LED strip: the SPI bytes for one
//! color byte, and a tick count that outlives the wraparound of a 32-bit timer.
use vstd::prelude::*;

verus! {

/// The SPI byte that sends two bits (`0..4`) to a WS2812 LED at 2.25 MHz.
pub open spec fn symbol_of(bits: u8) -> u8 {
    if bits == 0 {
        0b1000_1000
    } else if bits == 1 {
        0b1000_1110
    } else if bits == 2 {
        0b1110_1000
    } else {
        0b1110_1110
    }
}

/// The four SPI bytes that send `data`, two bits each, most significant first.
pub open spec fn ws2812_bytes(data: u8) -> Seq<u8> {
    seq![
        symbol_of(data / 64),
        symbol_of((data / 16) % 4),
        symbol_of((data / 4) % 4),
        symbol_of(data % 4),
    ]
}

fn symbol(bits: u8) -> (r: u8)
    requires
        bits < 4,
    ensures
        r == symbol_of(bits),
{
    if bits == 0 {
        0b1000_1000
    } else if bits == 1 {
        0b1000_1110
    } else if bits == 2 {
        0b1110_1000
    } else {
        0b1110_1110
    }
}

/// The four SPI bytes that send `data` to a WS2812 LED.
pub fn ws2812_symbols(data: u8) -> (r: [u8; 4])
    ensures
        r@ == ws2812_bytes(data),
{
    let r = [symbol(data / 64), symbol((data / 16) % 4), symbol((data / 4) % 4), symbol(data % 4)];
    assert(r@ =~= ws2812_bytes(data));
    r
}

/// Ticks from `last` to `now` on a 32-bit timer that wraps.
pub open spec fn ticks_between(last: u32, now: u32) -> nat {
    if now >= last {
        (now - last) as nat
    } else {
        (now + 0x1_0000_0000 - last) as nat
    }
}

/// A 64-bit count of timer ticks, kept from the readings of a 32-bit timer;
/// it is right as long as readings come less than one wraparound apart.
pub struct U64Instant {
    elapsed: u64,
    last_elapsed_u32: u32,
}

impl U64Instant {
    /// The ticks counted so far.
    pub closed spec fn ticks(&self) -> u64 {
        self.elapsed
    }

    /// The last reading of the 32-bit timer.
    pub closed spec fn last_reading(&self) -> u32 {
        self.last_elapsed_u32
    }

    /// Starts from a reading of the 32-bit timer, counting it as elapsed.
    pub fn new(elapsed_u32: u32) -> (r: Self)
        ensures
            r.ticks() == elapsed_u32,
            r.last_reading() == elapsed_u32,
    {
        Self { elapsed: elapsed_u32 as u64, last_elapsed_u32: elapsed_u32 }
    }

    /// The ticks counted so far.
    pub fn ticks_so_far(&self) -> (r: u64)
        ensures
            r == self.ticks(),
    {
        self.elapsed
    }

    /// Takes a new reading of the 32-bit timer and adds the ticks since the
    /// last one; returns the new count.
    pub fn elapsed(&mut self, elapsed_u32: u32) -> (r: u64)
        requires
            old(self).ticks() + ticks_between(old(self).last_reading(), elapsed_u32) <= u64::MAX,
        ensures
            r == final(self).ticks(),
            final(self).ticks() == old(self).ticks() + ticks_between(
                old(self).last_reading(),
                elapsed_u32,
            ),
            final(self).last_reading() == elapsed_u32,
    {
        let diff: u64 = if elapsed_u32 >= self.last_elapsed_u32 {
            (elapsed_u32 - self.last_elapsed_u32) as u64
        } else {
            elapsed_u32 as u64 + 0x1_0000_0000 - self.last_elapsed_u32 as u64
        };
        self.last_elapsed_u32 = elapsed_u32;
        self.elapsed = self.elapsed + diff;
        self.elapsed
    }
}

} // verus!
