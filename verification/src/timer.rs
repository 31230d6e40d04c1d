//! The hardware timer interface the stack drives.
//!
//! A free-running microsecond counter with compare slots: the association
//! service re-arms a slot with every step, and the interrupt handler asks
//! which slot fired. Implementations belong to the hardware layer outside
//! the library.

use vstd::prelude::*;

verus! {

/// A free-running microsecond timer with numbered compare slots.
pub trait Timer {
    /// Start the counter at microsecond resolution.
    fn init(&mut self);

    /// Arm a compare slot to fire at `at` microseconds from now; deadlines
    /// wrap with the counter.
    fn fire_at(&mut self, id: usize, at: u32);

    /// Push an armed compare slot `elapsed` microseconds further out.
    fn fire_plus(&mut self, id: usize, elapsed: u32);

    /// Disarm a compare slot.
    fn stop(&mut self, id: usize);

    /// The current counter value.
    fn now(&self) -> u32;

    /// Acknowledge a compare event so it can fire again.
    fn ack_compare_event(&mut self, id: usize);

    /// Whether a compare slot has fired.
    fn is_compare_event(&self, id: usize) -> bool;
}

} // verus!
