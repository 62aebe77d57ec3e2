//! Turning the count of the rotary encoder's quadrature decoder into dial steps.
use vstd::prelude::*;

verus! {

/// The signed distance from `last` to `count` on a 16-bit counter that wraps,
/// between -32768 and 32767.
pub open spec fn wrapped_diff(count: u16, last: u16) -> int {
    let d = count as int - last as int;
    if d >= 32768 {
        d - 65536
    } else if d < -32768 {
        d + 65536
    } else {
        d
    }
}

/// Half of `x`, rounded toward zero.
pub open spec fn half_toward_zero(x: int) -> int {
    if x >= 0 { x / 2 } else { -((-x) / 2) }
}

/// `x` as a signed byte, keeping its low eight bits.
pub open spec fn wrap_i8(x: int) -> i8 {
    let m = x % 256;
    (if m < 128 { m } else { m - 256 }) as i8
}

/// Two counts make one dial step; the counter keeps the count of the last step.
pub struct Counter {
    last_count: u16,
}

impl Counter {
    /// The count at the last step.
    pub closed spec fn last_count(&self) -> u16 {
        self.last_count
    }

    /// A counter that starts at the decoder's current `count`.
    pub fn new(count: u16) -> (r: Self)
        ensures
            r.last_count() == count,
    {
        Counter { last_count: count }
    }

    /// Reads the decoder's current `count`: once it is two or more away from
    /// the count of the last step, the steps taken (half the distance, toward
    /// zero, as a signed byte), and it becomes the count of the last step.
    pub fn poll(&mut self, count: u16) -> (r: Option<i8>)
        ensures
            ({
                let diff = wrapped_diff(count, old(self).last_count());
                if diff >= 2 || diff <= -2 {
                    &&& r == Some(wrap_i8(half_toward_zero(diff)))
                    &&& final(self).last_count() == count
                } else {
                    &&& r is None
                    &&& final(self).last_count() == old(self).last_count()
                }
            }),
    {
        let d: i32 = count as i32 - self.last_count as i32;
        let diff: i32 = if d >= 32768 {
            d - 65536
        } else if d < -32768 {
            d + 65536
        } else {
            d
        };
        let magnitude: i32 = if diff < 0 { -diff } else { diff };
        if magnitude >= 2 {
            self.last_count = count;
            let half: i32 = if diff < 0 { -(magnitude / 2) } else { magnitude / 2 };
            let low: i32 = if half >= 0 { half % 256 } else { (256 - (-half) % 256) % 256 };
            assert(low == half % 256);
            let steps: i8 = if low < 128 { low as i8 } else { (low - 256) as i8 };
            Some(steps)
        } else {
            None
        }
    }
}

} // verus!
