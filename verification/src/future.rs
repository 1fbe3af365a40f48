//! Completion futures for asynchronous transfers.
//!
//! The async runtime wraps these in its own `Future` impls: it registers
//! the task's waker with the channel's waker slot, then calls the poll
//! step here, which makes the completion decision and arms or clears the
//! listen bits. The waker must be registered before the status is read —
//! together with the interrupt dispatch in [`crate::channel`], which
//! clears exactly the listen bits it answered, that ordering rules out
//! lost wake-ups. Dropping the wrapper calls the disarm step, which
//! disables exactly the listens the poll step enables, so no stray
//! interrupt fires after cancellation.

use vstd::prelude::*;
use crate::channel::{Rx, Tx};
use crate::DmaError;

verus! {

/// The completion decision of one poll: resolve done, resolve a
/// descriptor error, or stay pending (and keep listening).
pub open spec fn poll_outcome_spec(done: bool, error: bool) -> Option<Result<(), DmaError>> {
    if done {
        Some(Ok(()))
    } else if error {
        Some(Err(DmaError::DescriptorError))
    } else {
        None
    }
}

/// Compute the completion decision: done wins over error, and with
/// neither bit set the transfer is still pending.
pub fn poll_outcome(done: bool, error: bool) -> (r: Option<Result<(), DmaError>>)
    ensures
        r == poll_outcome_spec(done, error),
{
    if done {
        Some(Ok(()))
    } else if error {
        Some(Err(DmaError::DescriptorError))
    } else {
        None
    }
}

/// Future of a whole outbound transfer.
#[must_use]
pub struct DmaTxFuture<TX: Tx> {
    /// The transmit channel half.
    pub tx: TX,
}

impl<TX: Tx> DmaTxFuture<TX> {
    /// Wrap the transmit half for completion polling.
    pub fn new(tx: TX) -> Self {
        DmaTxFuture { tx }
    }

    /// The transmit half, for the runtime's own use.
    pub fn tx(&mut self) -> &mut TX {
        &mut self.tx
    }

    /// One completion check: resolve ready if the transfer is done,
    /// resolve a descriptor error if the channel reports one, else arm
    /// the end-of-frame and error listens and report pending. The caller
    /// registers its waker before calling.
    pub fn poll(&mut self) -> (r: Option<Result<(), DmaError>>)
        ensures
            r is Some ==> r == Some(Ok::<(), DmaError>(())) || r == Some(
                Err::<(), DmaError>(DmaError::DescriptorError),
            ),
    {
        let done = self.tx.is_done();
        let error = self.tx.has_error();
        let outcome = poll_outcome(done, error);
        match outcome {
            Some(res) => {
                self.tx.clear_interrupts();
                Some(res)
            },
            None => {
                self.tx.listen_eof();
                self.tx.listen_out_descriptor_error();
                None
            },
        }
    }

    /// The cancellation step: disable exactly the listens `poll` enables.
    pub fn disarm(&mut self) {
        self.tx.unlisten_eof();
        self.tx.unlisten_out_descriptor_error();
    }
}

/// Future of a whole inbound transfer.
#[must_use]
pub struct DmaRxFuture<RX: Rx> {
    /// The receive channel half.
    pub rx: RX,
}

impl<RX: Rx> DmaRxFuture<RX> {
    /// Wrap the receive half for completion polling.
    pub fn new(rx: RX) -> Self {
        DmaRxFuture { rx }
    }

    /// The receive half, for the runtime's own use.
    pub fn rx(&mut self) -> &mut RX {
        &mut self.rx
    }

    /// One completion check: resolve ready if the transfer is done,
    /// resolve a descriptor error if any of the three inbound error bits
    /// is set, else arm the end-of-frame and error-family listens and
    /// report pending. The caller registers its waker before calling.
    pub fn poll(&mut self) -> (r: Option<Result<(), DmaError>>)
        ensures
            r is Some ==> r == Some(Ok::<(), DmaError>(())) || r == Some(
                Err::<(), DmaError>(DmaError::DescriptorError),
            ),
    {
        let done = self.rx.is_done();
        let err1 = self.rx.has_error();
        let err2 = self.rx.has_dscr_empty_error();
        let err3 = self.rx.has_eof_error();
        let outcome = poll_outcome(done, err1 || err2 || err3);
        match outcome {
            Some(res) => {
                self.rx.clear_interrupts();
                Some(res)
            },
            None => {
                self.rx.listen_eof();
                self.rx.listen_in_descriptor_error();
                self.rx.listen_in_descriptor_error_dscr_empty();
                self.rx.listen_in_descriptor_error_err_eof();
                None
            },
        }
    }

    /// The cancellation step: disable exactly the listens `poll` enables.
    pub fn disarm(&mut self) {
        self.rx.unlisten_eof();
        self.rx.unlisten_in_descriptor_error();
        self.rx.unlisten_in_descriptor_error_dscr_empty();
        self.rx.unlisten_in_descriptor_error_err_eof();
    }
}

/// Future of one outbound descriptor's completion, where the per-channel
/// done latch is the relevant signal rather than whole-transfer done.
#[must_use]
pub struct DmaTxDoneChFuture<TX: Tx> {
    /// The transmit channel half.
    pub tx: TX,
}

impl<TX: Tx> DmaTxDoneChFuture<TX> {
    /// Wrap the transmit half for channel-done polling.
    pub fn new(tx: TX) -> Self {
        DmaTxDoneChFuture { tx }
    }

    /// One completion check against the channel-done latch. On ready the
    /// latch alone is cleared; on error all interrupts are. The caller
    /// registers its waker before calling.
    pub fn poll(&mut self) -> (r: Option<Result<(), DmaError>>)
        ensures
            r is Some ==> r == Some(Ok::<(), DmaError>(())) || r == Some(
                Err::<(), DmaError>(DmaError::DescriptorError),
            ),
    {
        let done = self.tx.is_ch_out_done_set();
        let error = self.tx.has_error();
        let outcome = poll_outcome(done, error);
        match outcome {
            Some(res) => {
                if res.is_ok() {
                    self.tx.clear_ch_out_done();
                } else {
                    self.tx.clear_interrupts();
                }
                Some(res)
            },
            None => {
                self.tx.listen_ch_out_done();
                self.tx.listen_out_descriptor_error();
                None
            },
        }
    }

    /// The cancellation step: disable exactly the listens `poll` enables.
    pub fn disarm(&mut self) {
        self.tx.unlisten_ch_out_done();
        self.tx.unlisten_out_descriptor_error();
    }
}

/// Future of one inbound descriptor's completion, where the per-channel
/// done latch is the relevant signal rather than whole-transfer done.
#[must_use]
pub struct DmaRxDoneChFuture<RX: Rx> {
    /// The receive channel half.
    pub rx: RX,
}

impl<RX: Rx> DmaRxDoneChFuture<RX> {
    /// Wrap the receive half for channel-done polling.
    pub fn new(rx: RX) -> Self {
        DmaRxDoneChFuture { rx }
    }

    /// One completion check against the channel-done latch. On ready the
    /// latch alone is cleared; on error all interrupts are. The caller
    /// registers its waker before calling.
    pub fn poll(&mut self) -> (r: Option<Result<(), DmaError>>)
        ensures
            r is Some ==> r == Some(Ok::<(), DmaError>(())) || r == Some(
                Err::<(), DmaError>(DmaError::DescriptorError),
            ),
    {
        let done = self.rx.is_ch_in_done_set();
        let err1 = self.rx.has_error();
        let err2 = self.rx.has_dscr_empty_error();
        let err3 = self.rx.has_eof_error();
        let outcome = poll_outcome(done, err1 || err2 || err3);
        match outcome {
            Some(res) => {
                if res.is_ok() {
                    self.rx.clear_ch_in_done();
                } else {
                    self.rx.clear_interrupts();
                }
                Some(res)
            },
            None => {
                self.rx.listen_ch_in_done();
                self.rx.listen_in_descriptor_error();
                self.rx.listen_in_descriptor_error_dscr_empty();
                self.rx.listen_in_descriptor_error_err_eof();
                None
            },
        }
    }

    /// The cancellation step: disable exactly the listens `poll` enables.
    pub fn disarm(&mut self) {
        self.rx.unlisten_ch_in_done();
        self.rx.unlisten_in_descriptor_error();
        self.rx.unlisten_in_descriptor_error_dscr_empty();
        self.rx.unlisten_in_descriptor_error_err_eof();
    }
}

} // verus!
