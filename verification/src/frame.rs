//! Frame statistics.
//!
//! The host hands in a monotonic clock reading (milliseconds) with each
//! call; the counter itself is plain verified state.

use vstd::prelude::*;

verus! {

pub struct FrameCounter {
    pub start_ms: u64,
    pub frame_count: u32,
    pub last_update_ms: u64,
}

impl FrameCounter {
    /// A counter started at clock reading `now_ms`.
    pub fn new(now_ms: u64) -> (c: FrameCounter)
        ensures
            c.start_ms == now_ms,
            c.frame_count == 0,
            c.last_update_ms == now_ms,
    {
        FrameCounter { start_ms: now_ms, frame_count: 0, last_update_ms: now_ms }
    }

    /// Records the frame count; rolls the update mark forward once more
    /// than a second has passed since the last mark.
    pub fn update(&mut self, frame_count: u32, now_ms: u64)
        ensures
            final(self).frame_count == frame_count,
            final(self).start_ms == old(self).start_ms,
            final(self).last_update_ms == if now_ms >= old(self).last_update_ms && now_ms - old(
                self,
            ).last_update_ms > 1000 {
                now_ms
            } else {
                old(self).last_update_ms
            },
    {
        self.frame_count = frame_count;
        if now_ms >= self.last_update_ms && now_ms - self.last_update_ms > 1000 {
            self.last_update_ms = now_ms;
        }
    }

    /// Frames per second in thousandths, over the span from start to the
    /// last update mark; zero when no time has passed.
    pub fn fps_milli(&self) -> (r: u64)
        ensures
            r == if self.last_update_ms > self.start_ms {
                ((self.frame_count as int) * 1_000_000) / (self.last_update_ms - self.start_ms)
            } else {
                0
            },
    {
        if self.last_update_ms > self.start_ms {
            (self.frame_count as u64) * 1_000_000 / (self.last_update_ms - self.start_ms)
        } else {
            0
        }
    }
}

} // verus!
