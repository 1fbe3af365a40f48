//! Core of an embedded DMA driver: the descriptor-chain engine and the
//! circular streaming state machines.
//!
//! The driver prepares linked-list descriptor chains in DMA-reachable RAM,
//! hands them to the controller, tracks completion through per-descriptor
//! ownership bits, and offers one-shot as well as circular (continuous,
//! wraparound) transfer disciplines.
//!
//! Hardware-visible memory is modelled with plain addresses: a descriptor's
//! `buffer` and `next` words hold `usize` addresses (`0` is the null link),
//! and the descriptor table itself sits at a caller-chosen base address.
//! Everything the controller reports at run time (interrupt latches, status
//! bits, the last-handled descriptor address) enters the library as plain
//! values, so every decision the driver makes is verified for every value
//! the hardware could report.

use vstd::prelude::*;

pub mod chain;
pub mod channel;
pub mod descriptor;
pub mod flags;
pub mod future;
pub mod rx_circular;
pub mod transfer;
pub mod tx_circular;

verus! {

/// Errors surfaced by the DMA driver core.
#[derive(Debug, Clone, Copy, PartialEq, Eq, Structural)]
pub enum DmaError {
    /// The alignment of data is invalid for the configured burst mode.
    InvalidAlignment,
    /// More descriptors are needed for the buffer size.
    OutOfDescriptors,
    /// The DMA controller rejected the descriptor configuration.
    DescriptorError,
    /// The available free space is less than the amount of data to push.
    Overflow,
    /// The given buffer is too small.
    BufferTooSmall,
    /// Descriptors or buffers are not located in a supported memory region.
    UnsupportedMemoryRegion,
    /// Invalid DMA chunk size.
    InvalidChunkSize,
}

} // verus!
