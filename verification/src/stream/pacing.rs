use vstd::prelude::*;

verus! {

/// How a sender spreads one interval's byte budget over the interval: the budget
/// is split into equal slices, and after each slice the sender waits for the
/// slice's share of the interval to pass.
pub struct Pacing {
    /// The bytes that the interval may send in all.
    pub bytes_to_send: i64,
    /// What is left of that budget; sending stops once it is not positive.
    pub bytes_to_send_remaining: i64,
    /// The bytes of one slice.
    pub slice_size: i64,
    /// What is left of the current slice.
    pub slice_remaining: i64,
    /// How many slices have been completed.
    pub interval_iteration: u32,
    /// Bytes written so far in this interval.
    pub bytes_sent: u64,
    /// Writes that succeeded so far in this interval.
    pub packets_sent: u64,
    /// Writes that found the send buffer full.
    pub sends_blocked: u64,
}

/// What a sender does after a write.
#[derive(Debug, Clone, Copy, PartialEq, Eq)]
pub enum PacingAction {
    /// Write again at once.
    Continue,
    /// The interval's budget is spent: wait until the interval is over.
    SleepUntilIntervalEnd,
    /// The slice is spent: wait until this many slices of the interval have passed.
    SleepUntilSliceEnd(u32),
}

impl Pacing {
    /// What the interval has left equals its budget less what was written.
    pub open spec fn accounted(&self) -> bool {
        self.bytes_to_send_remaining == self.bytes_to_send - self.bytes_sent
    }

    /// The pacing of a fresh interval, with its byte budget and slice size.
    pub fn new(bytes_to_send: i64, slice_size: i64) -> (r: Pacing)
        ensures
            r.bytes_to_send == bytes_to_send,
            r.bytes_to_send_remaining == bytes_to_send,
            r.slice_size == slice_size,
            r.slice_remaining == slice_size,
            r.interval_iteration == 0,
            r.bytes_sent == 0,
            r.packets_sent == 0,
            r.sends_blocked == 0,
            r.accounted(),
    {
        Pacing {
            bytes_to_send,
            bytes_to_send_remaining: bytes_to_send,
            slice_size,
            slice_remaining: slice_size,
            interval_iteration: 0,
            bytes_sent: 0,
            packets_sent: 0,
            sends_blocked: 0,
        }
    }

    /// Whether the interval's budget still allows a write: while the pacing is
    /// accounted, exactly while less than the budget has been written.
    pub fn has_budget(&self) -> (r: bool)
        ensures
            r == (self.bytes_to_send_remaining > 0),
            self.accounted() ==> (r <==> self.bytes_sent < self.bytes_to_send),
    {
        self.bytes_to_send_remaining > 0
    }

    /// Accounts for a write of `written` bytes.
    pub fn record_sent(&mut self, written: u64)
        requires
            written <= i64::MAX,
            old(self).bytes_sent + written <= u64::MAX,
            old(self).packets_sent < u64::MAX,
            old(self).bytes_to_send_remaining - written >= i64::MIN,
            old(self).slice_remaining - written >= i64::MIN,
        ensures
            final(self).bytes_sent == old(self).bytes_sent + written,
            final(self).packets_sent == old(self).packets_sent + 1,
            final(self).bytes_to_send_remaining == old(self).bytes_to_send_remaining - written,
            final(self).slice_remaining == old(self).slice_remaining - written,
            final(self).bytes_to_send == old(self).bytes_to_send,
            final(self).slice_size == old(self).slice_size,
            final(self).interval_iteration == old(self).interval_iteration,
            final(self).sends_blocked == old(self).sends_blocked,
            old(self).accounted() ==> final(self).accounted(),
    {
        self.bytes_sent = self.bytes_sent + written;
        self.packets_sent = self.packets_sent + 1;
        self.bytes_to_send_remaining = self.bytes_to_send_remaining - written as i64;
        self.slice_remaining = self.slice_remaining - written as i64;
    }

    /// Accounts for a write that found the send buffer full.
    pub fn record_blocked(&mut self)
        requires
            old(self).sends_blocked < u64::MAX,
        ensures
            *final(self) == (Pacing { sends_blocked: (old(self).sends_blocked + 1) as u64, ..*old(self) }),
    {
        self.sends_blocked = self.sends_blocked + 1;
    }

    /// Decides what follows a write: wait out the interval once its budget is
    /// spent, else wait out the slice once the slice is spent (starting the next),
    /// else go on.
    pub fn pace(&mut self) -> (action: PacingAction)
        requires
            old(self).interval_iteration < u32::MAX,
        ensures
            old(self).bytes_to_send_remaining <= 0 ==> action == PacingAction::SleepUntilIntervalEnd
                && *final(self) == *old(self),
            old(self).bytes_to_send_remaining > 0 && old(self).slice_remaining <= 0 ==> action
                == PacingAction::SleepUntilSliceEnd((old(self).interval_iteration + 1) as u32)
                && *final(self) == (Pacing {
                    interval_iteration: (old(self).interval_iteration + 1) as u32,
                    slice_remaining: old(self).slice_size,
                    ..*old(self)
                }),
            old(self).bytes_to_send_remaining > 0 && old(self).slice_remaining > 0 ==> action
                == PacingAction::Continue && *final(self) == *old(self),
    {
        if self.bytes_to_send_remaining <= 0 {
            PacingAction::SleepUntilIntervalEnd
        } else if self.slice_remaining <= 0 {
            self.interval_iteration = self.interval_iteration + 1;
            self.slice_remaining = self.slice_size;
            PacingAction::SleepUntilSliceEnd(self.interval_iteration)
        } else {
            PacingAction::Continue
        }
    }
}

} // verus!
