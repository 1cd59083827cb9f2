//! Congestion control.

use vstd::prelude::*;

use crate::time::Instant;

verus! {

/// Decides how much may be sent before it is acknowledged.
pub trait Controller {
    /// The number of octets that can be sent.
    spec fn window_view(&self) -> usize;

    /// Returns the number of bytes that can be sent.
    fn window(&self) -> (r: usize)
        ensures
            r == self.window_view(),
    ;

    /// Set the remote window size.
    fn set_remote_window(&mut self, remote_window: usize);

    /// Fired on each acknowledgment of new data.
    fn on_ack(&mut self, now: Instant, len: usize, in_flight: usize);

    /// Fired on each duplicate ack received, after `on_loss` has been called.
    fn on_dup_ack(&mut self, now: Instant, len: usize, in_flight: usize);

    /// Fired on a retransmission timeout.
    fn on_rto(&mut self, now: Instant, in_flight: usize);

    /// Fired after an inferred loss via three duplicate acks.
    fn on_loss(&mut self, now: Instant, in_flight: usize);

    /// Fired before a segment is sent.
    fn pre_transmit(&mut self, now: Instant);

    /// Fired after a segment was sent.
    fn post_transmit(&mut self, now: Instant, len: usize);

    /// Set the maximum segment size.
    fn set_mss(&mut self, mss: usize);
}

/// No congestion control: nothing but the remote window limits what is sent.
#[derive(Debug)]
pub struct NoControl;

impl Controller for NoControl {
    open spec fn window_view(&self) -> usize {
        usize::MAX
    }

    fn window(&self) -> (r: usize) {
        usize::MAX
    }

    fn set_remote_window(&mut self, remote_window: usize)
        ensures
            *final(self) == *old(self),
    {
    }

    fn on_ack(&mut self, now: Instant, len: usize, in_flight: usize)
        ensures
            *final(self) == *old(self),
    {
    }

    fn on_dup_ack(&mut self, now: Instant, len: usize, in_flight: usize)
        ensures
            *final(self) == *old(self),
    {
    }

    fn on_rto(&mut self, now: Instant, in_flight: usize)
        ensures
            *final(self) == *old(self),
    {
    }

    fn on_loss(&mut self, now: Instant, in_flight: usize)
        ensures
            *final(self) == *old(self),
    {
    }

    fn pre_transmit(&mut self, now: Instant)
        ensures
            *final(self) == *old(self),
    {
    }

    fn post_transmit(&mut self, now: Instant, len: usize)
        ensures
            *final(self) == *old(self),
    {
    }

    fn set_mss(&mut self, mss: usize)
        ensures
            *final(self) == *old(self),
    {
    }
}

} // verus!
