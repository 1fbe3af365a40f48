//! Transfer handles: scoped objects around an in-flight transfer.
//!
//! A handle owns the peripheral instance for the duration of the transfer
//! and gives it back from `wait` (one-shot transfers) or `stop` (circular
//! transfers) together with the outcome, so buffers are never released
//! while the engine may still touch them. The completion decision — which
//! result a finished transfer reports for a given error bit — is the
//! core's own logic and is verified exactly; the status bits themselves
//! are plain observations of the channel.

use vstd::prelude::*;
use crate::chain::{is_ring, lemma_ring_len, ring_len, ring_range_len, DescriptorChain};
use crate::channel::{Rx, Tx};
use crate::descriptor::Owner;
use crate::rx_circular::{
    lemma_rx_ready_after_update, ring_step, rx_handle_ready, rx_pop_drained, rx_update_relates,
    RxCircularState,
};
use crate::tx_circular::{ring_lens_positive, spec_min, tx_block_len, TxCircularState};
use crate::DmaError;

verus! {

/// What a peripheral driver supplies so a transfer can be waited upon or
/// stopped: the peripheral-side wait hook (which may also drain FIFOs)
/// and the peripheral-side stop hook for circular streams.
pub trait DmaSupport {
    /// Block until the peripheral considers the transfer done.
    fn peripheral_wait_dma(&mut self, is_tx: bool, is_rx: bool);

    /// Stop a circular transfer at the peripheral.
    fn peripheral_dma_stop(&mut self);
}

/// A peripheral driver whose transmit half can be queried and whose
/// descriptor chain can be reached.
pub trait DmaSupportTx: DmaSupport {
    /// The transmit channel half.
    type TX: Tx;

    /// The transmit channel half.
    fn tx(&mut self) -> &mut Self::TX;

    /// The transmit descriptor chain.
    fn chain(&mut self) -> &mut DescriptorChain;
}

/// A peripheral driver whose receive half can be queried and whose
/// descriptor chain can be reached.
pub trait DmaSupportRx: DmaSupport {
    /// The receive channel half.
    type RX: Rx;

    /// The receive channel half.
    fn rx(&mut self) -> &mut Self::RX;

    /// The receive descriptor chain.
    fn chain(&mut self) -> &mut DescriptorChain;
}

/// The completion decision: a finished transfer reports a descriptor
/// error if and only if the channel's error bit was set.
pub fn completion_result(has_error: bool) -> (r: Result<(), DmaError>)
    ensures
        r == if has_error {
            Err::<(), DmaError>(DmaError::DescriptorError)
        } else {
            Ok::<(), DmaError>(())
        },
{
    if has_error {
        Err(DmaError::DescriptorError)
    } else {
        Ok(())
    }
}

/// DMA transaction for TX-only transfers.
#[must_use]
pub struct DmaTransferTx<I: DmaSupportTx> {
    instance: I,
}

impl<I: DmaSupportTx> DmaTransferTx<I> {
    /// Scope a running transmit transfer.
    pub fn new(instance: I) -> Self {
        DmaTransferTx { instance }
    }

    /// Wait for the transfer to finish, then give the peripheral back
    /// with the outcome: `DescriptorError` exactly when the channel
    /// reported one.
    pub fn wait(self) -> (r: (I, Result<(), DmaError>))
        ensures
            r.1 == Ok::<(), DmaError>(()) || r.1 == Err::<(), DmaError>(DmaError::DescriptorError),
    {
        let DmaTransferTx { instance: mut i } = self;
        i.peripheral_wait_dma(true, false);
        let err = i.tx().has_error();
        let res = completion_result(err);
        (i, res)
    }

    /// Check if the transfer is finished.
    pub fn is_done(&mut self) -> bool {
        self.instance.tx().is_done()
    }
}

/// DMA transaction for RX-only transfers.
#[must_use]
pub struct DmaTransferRx<I: DmaSupportRx> {
    instance: I,
}

impl<I: DmaSupportRx> DmaTransferRx<I> {
    /// Scope a running receive transfer.
    pub fn new(instance: I) -> Self {
        DmaTransferRx { instance }
    }

    /// Wait for the transfer to finish, then give the peripheral back
    /// with the outcome: `DescriptorError` exactly when the channel
    /// reported one.
    pub fn wait(self) -> (r: (I, Result<(), DmaError>))
        ensures
            r.1 == Ok::<(), DmaError>(()) || r.1 == Err::<(), DmaError>(DmaError::DescriptorError),
    {
        let DmaTransferRx { instance: mut i } = self;
        i.peripheral_wait_dma(false, true);
        let err = i.rx().has_error();
        let res = completion_result(err);
        (i, res)
    }

    /// Check if the transfer is finished.
    pub fn is_done(&mut self) -> bool {
        self.instance.rx().is_done()
    }
}

/// DMA transaction for simultaneous TX and RX transfers.
#[must_use]
pub struct DmaTransferTxRx<I: DmaSupportTx + DmaSupportRx> {
    instance: I,
}

impl<I: DmaSupportTx + DmaSupportRx> DmaTransferTxRx<I> {
    /// Scope a running bidirectional transfer.
    pub fn new(instance: I) -> Self {
        DmaTransferTxRx { instance }
    }

    /// Wait for both directions to finish, then give the peripheral back
    /// with the outcome: `DescriptorError` exactly when either direction
    /// reported one.
    pub fn wait(self) -> (r: (I, Result<(), DmaError>))
        ensures
            r.1 == Ok::<(), DmaError>(()) || r.1 == Err::<(), DmaError>(DmaError::DescriptorError),
    {
        let DmaTransferTxRx { instance: mut i } = self;
        i.peripheral_wait_dma(true, true);
        let tx_err = i.tx().has_error();
        let rx_err = i.rx().has_error();
        let res = completion_result(tx_err || rx_err);
        (i, res)
    }

    /// Check if both directions are finished.
    pub fn is_done(&mut self) -> bool {
        let tx_done = self.instance.tx().is_done();
        let rx_done = self.instance.rx().is_done();
        tx_done && rx_done
    }
}

/// DMA transaction for TX-only circular transfers.
#[must_use]
pub struct DmaTransferTxCircular<I: DmaSupportTx> {
    /// The peripheral driver the transfer runs on.
    pub instance: I,
    /// The producer bookkeeping.
    pub state: TxCircularState,
}

impl<I: DmaSupportTx> DmaTransferTxCircular<I> {
    /// The handle's operating conditions over its chain: a ring covering
    /// the whole table, positive fragment lengths, bookkeeping in step,
    /// and room for the arithmetic.
    pub open spec fn wf_for(self, c: DescriptorChain) -> bool {
        &&& self.state.wf_for(c)
        &&& is_ring(c, c.descriptors.len() as int)
        &&& ring_lens_positive(c)
        &&& 1 <= self.state.buffer_len
        &&& self.state.available <= self.state.buffer_len
        &&& 2 * self.state.buffer_len <= usize::MAX
    }

    /// Scope a running circular transmit transfer over its chain.
    pub fn new(instance: I, chain: &mut DescriptorChain) -> (r: Self)
        requires
            old(chain).wf(),
            ring_range_len(*old(chain), 0, old(chain).descriptors.len() as int) <= usize::MAX,
        ensures
            *final(chain) == *old(chain),
            r.state.available == 0,
            r.state.write_offset == 0,
            is_ring(*old(chain), old(chain).descriptors.len() as int) && ring_lens_positive(
                *old(chain),
            ) && 1 <= r.state.buffer_len && 2 * r.state.buffer_len <= usize::MAX ==> r.wf_for(
                *old(chain),
            ),
    {
        let state = TxCircularState::new(chain);
        DmaTransferTxCircular { instance, state }
    }

    /// Read the channel's progress report and reconcile. A report whose
    /// reclaimed bytes would exceed the ring's capacity, or whose cursor
    /// lies outside the ring, cannot come from a sane engine and is
    /// ignored.
    fn poll_progress(&mut self, chain: &DescriptorChain)
        requires
            old(self).wf_for(*chain),
        ensures
            final(self).wf_for(*chain),
            final(self).state.buffer_len == old(self).state.buffer_len,
            final(self).state.buffer_start == old(self).state.buffer_start,
            final(self).state.first_desc_ptr == old(self).state.first_desc_ptr,
    {
        proof {
            lemma_ring_len(*chain, chain.descriptors.len() as int);
        }
        let handled = self.instance.tx().descriptors_handled();
        if handled {
            self.instance.tx().reset_descriptors_handled();
            let address = self.instance.tx().last_out_dscr_address();
            let n = chain.descriptors.len();
            let in_ring = chain.base_address <= address && address < chain.base_address + 12 * n
                && (address - chain.base_address) % 12 == 0;
            if in_ring {
                let mut tentative = self.state;
                tentative.update(chain, true, address);
                if tentative.available <= self.state.buffer_len {
                    self.state = tentative;
                }
            }
        }
    }

    /// Amount of bytes which can be pushed.
    pub fn available(&mut self, chain: &DescriptorChain) -> (r: usize)
        requires
            old(self).wf_for(*chain),
        ensures
            final(self).wf_for(*chain),
            r == final(self).state.available,
    {
        self.poll_progress(chain);
        self.state.available
    }

    /// Push bytes into the ring buffer. Fails with `Overflow`, changing
    /// no bookkeeping, when more bytes are offered than are reclaimable.
    /// On success every byte lands in the ring at the reconciled write
    /// cursor, wrapping at the buffer's end, and the bookkeeping advances
    /// past it (the [`tx_push_outcome`] relation, with the reconciled
    /// state as witness).
    pub fn push(&mut self, chain: &DescriptorChain, ring: &mut Vec<u8>, data: &[u8]) -> (r: Result<
        usize,
        DmaError,
    >)
        requires
            old(self).wf_for(*chain),
            old(ring).len() == old(self).state.buffer_len,
        ensures
            final(self).wf_for(*chain),
            final(ring)@.len() == old(ring)@.len(),
            r == Ok::<usize, DmaError>(data@.len() as usize) || r == Err::<usize, DmaError>(
                DmaError::Overflow,
            ),
            data@.len() == 0 ==> r == Ok::<usize, DmaError>(0),
            r is Err ==> final(ring)@ == old(ring)@,
            r is Ok ==> exists|mid: TxCircularState|
                #[trigger] tx_push_outcome(
                    *chain,
                    mid,
                    final(self).state,
                    old(ring)@,
                    final(ring)@,
                    data@,
                ),
    {
        self.poll_progress(chain);
        let ghost mid = self.state;
        let res = self.state.push(chain, ring, data);
        proof {
            if res is Ok {
                assert(tx_push_outcome(*chain, mid, self.state, old(ring)@, ring@, data@));
            }
        }
        res
    }

    /// Push bytes through a caller closure: the closure receives the
    /// writable block — the ring's reclaimable, contiguous bytes at the
    /// reconciled write cursor — and returns its new contents and the
    /// count of bytes it wrote, which must not exceed the block. The call
    /// returns that count, the block holds the closure's bytes, and the
    /// cursors advance past them (the [`tx_push_with_outcome`] relation,
    /// with the reconciled state as witness).
    pub fn push_with<F: FnOnce(Vec<u8>) -> (Vec<u8>, usize)>(
        &mut self,
        chain: &DescriptorChain,
        ring: &mut Vec<u8>,
        f: F,
    ) -> (r: Result<usize, DmaError>)
        requires
            old(self).wf_for(*chain),
            old(ring).len() == old(self).state.buffer_len,
            forall|buf: Vec<u8>|
                buf@.len() <= old(self).state.buffer_len ==> #[trigger] f.requires((buf,)),
            forall|buf: Vec<u8>, out: (Vec<u8>, usize)| #[trigger]
                f.ensures((buf,), out) ==> out.0@.len() == buf@.len() && out.1 <= buf@.len(),
        ensures
            final(self).wf_for(*chain),
            final(ring)@.len() == old(ring)@.len(),
            r is Ok,
            exists|mid: TxCircularState|
                mid.wf_for(*chain) && mid.buffer_len == old(self).state.buffer_len
                    && #[trigger] tx_push_with_outcome(
                    *chain,
                    mid,
                    final(self).state,
                    old(ring)@,
                    final(ring)@,
                    f,
                    r,
                ),
    {
        self.poll_progress(chain);
        proof {
            assert forall|buf: Vec<u8>|
                buf@.len() == spec_min(
                    self.state.available as int,
                    self.state.buffer_len - self.state.write_offset,
                ) implies #[trigger] f.requires((buf,)) by {
                assert(buf@.len() <= self.state.buffer_len);
            }
        }
        let ghost mid = self.state;
        let res = self.state.push_with(chain, ring, f);
        proof {
            assert(tx_push_with_outcome(*chain, mid, self.state, old(ring)@, ring@, f, res));
        }
        res
    }

    /// Stop the circular transfer at the peripheral, then give the
    /// peripheral back with the outcome: `DescriptorError` exactly when
    /// the channel reported one.
    pub fn stop(self) -> (r: (I, Result<(), DmaError>))
        ensures
            r.1 == Ok::<(), DmaError>(()) || r.1 == Err::<(), DmaError>(DmaError::DescriptorError),
    {
        let DmaTransferTxCircular { instance: mut i, state: _ } = self;
        i.peripheral_dma_stop();
        let err = i.tx().has_error();
        let res = completion_result(err);
        (i, res)
    }
}

/// DMA transaction for RX-only circular transfers.
#[must_use]
pub struct DmaTransferRxCircular<I: DmaSupportRx> {
    /// The peripheral driver the transfer runs on.
    pub instance: I,
    /// The consumer bookkeeping.
    pub state: RxCircularState,
}

impl<I: DmaSupportRx> DmaTransferRxCircular<I> {
    /// The handle's operating conditions over its chain: the consumer in
    /// protocol step, the hardware still holding part of the ring, and
    /// room for the arithmetic.
    pub open spec fn wf_for(self, c: DescriptorChain) -> bool {
        &&& self.state.wf_for(c)
        &&& rx_handle_ready(c, self.state)
        &&& self.state.available + c.descriptors.len() * 0x1000 <= usize::MAX
    }

    /// Scope a running circular receive transfer over its chain.
    pub fn new(instance: I, chain: &mut DescriptorChain) -> (r: Self)
        requires
            old(chain).wf(),
        ensures
            *final(chain) == *old(chain),
            r.state.available == 0,
            r.state.last_seen_handled_descriptor_ptr == 0,
            r.state.read_descr_ptr == old(chain).base_address,
    {
        let state = RxCircularState::new(chain);
        DmaTransferRxCircular { instance, state }
    }

    /// Amount of bytes which can be popped; reconciles with the
    /// descriptors the hardware has handed over first.
    pub fn available(&mut self, chain: &DescriptorChain) -> (r: usize)
        requires
            old(self).wf_for(*chain),
        ensures
            r == final(self).state.available,
            final(self).state.wf_for(*chain),
            rx_update_relates(*chain, old(self).state, final(self).state),
            rx_handle_ready(*chain, final(self).state),
    {
        proof {
            lemma_rx_ready_hardware(*chain, self.state);
        }
        let ghost pre = self.state;
        self.state.update(chain);
        proof {
            lemma_rx_ready_after_update(*chain, pre, self.state);
        }
        self.state.available
    }

    /// Get the available data: drain whole descriptors into `data`,
    /// recycling them to the hardware. `src` is the receive ring buffer
    /// at address `src_base`. Fails with `BufferTooSmall` if `data`
    /// cannot hold everything available.
    pub fn pop(
        &mut self,
        chain: &mut DescriptorChain,
        src: &Vec<u8>,
        src_base: usize,
        data: &mut Vec<u8>,
    ) -> (r: Result<usize, DmaError>)
        requires
            old(self).wf_for(*old(chain)),
            forall|i: int|
                0 <= i < old(chain).descriptors.len() ==> src_base <= #[trigger] old(
                    chain,
                ).descriptors[i].buffer && old(chain).descriptors[i].buffer - src_base + old(
                    chain,
                ).descriptors[i].spec_len() <= src.len(),
        ensures
            final(self).state.wf_for(*final(chain)),
            final(data)@.len() == old(data)@.len(),
            r is Err ==> r == Err::<usize, DmaError>(DmaError::BufferTooSmall) && *final(chain)
                == *old(chain) && final(data)@ == old(data)@,
            r is Ok ==> final(self).state.available == 0 && exists|
                mid: RxCircularState,
                steps: int,
            |
                rx_update_relates(*old(chain), old(self).state, mid) && #[trigger] rx_pop_drained(
                    *old(chain),
                    *final(chain),
                    mid,
                    final(self).state,
                    src@,
                    src_base as int,
                    old(data)@,
                    final(data)@,
                    steps,
                ),
    {
        proof {
            lemma_rx_ready_hardware(*chain, self.state);
        }
        let ghost pre = self.state;
        self.state.update(chain);
        proof {
            lemma_rx_ready_after_update(*chain, pre, self.state);
        }
        let res = self.state.pop(chain, src, src_base, data);
        res
    }
}

/// What a successful handle-level closure push did, witnessed by the
/// intermediate bookkeeping `mid` right after the hardware
/// reconciliation: the closure was handed exactly `mid`'s writable block
/// — the ring's bytes from the write cursor to the end of the
/// reclaimable, contiguous region — the call returned the count the
/// closure reported (at most the block), the block now holds the
/// closure's bytes with the rest of the ring untouched, and the cursors
/// advanced past the written count.
pub open spec fn tx_push_with_outcome<F: FnOnce(Vec<u8>) -> (Vec<u8>, usize)>(
    c: DescriptorChain,
    mid: TxCircularState,
    post: TxCircularState,
    ring0: Seq<u8>,
    ring1: Seq<u8>,
    f: F,
    r: Result<usize, DmaError>,
) -> bool {
    exists|buf: Vec<u8>, out: (Vec<u8>, usize)|
        {
            &&& #[trigger] f.ensures((buf,), out)
            &&& buf@ == ring0.subrange(
                mid.write_offset as int,
                mid.write_offset + tx_block_len(mid),
            )
            &&& r == Ok::<usize, DmaError>(out.1)
            &&& out.1 <= tx_block_len(mid)
            &&& post.buffer_len == mid.buffer_len
            &&& post.available == mid.available - out.1
            &&& post.write_offset == (mid.write_offset + out.1) % (mid.buffer_len as int)
            &&& ring1 == ring0.subrange(0, mid.write_offset as int).add(out.0@).add(
                ring0.subrange(mid.write_offset + tx_block_len(mid), mid.buffer_len as int),
            )
        }
}

/// What a successful handle-level push did, witnessed by the
/// intermediate bookkeeping `mid` right after the hardware
/// reconciliation: the data fit into `mid`'s reclaimable bytes, each
/// byte landed in the ring at `mid`'s write cursor (wrapping at the
/// buffer's end), and the cursors advanced past the pushed bytes.
pub open spec fn tx_push_outcome(
    c: DescriptorChain,
    mid: TxCircularState,
    post: TxCircularState,
    ring0: Seq<u8>,
    ring1: Seq<u8>,
    data: Seq<u8>,
) -> bool {
    &&& mid.wf_for(c)
    &&& data.len() <= mid.available
    &&& mid.available <= mid.buffer_len
    &&& post.buffer_len == mid.buffer_len
    &&& post.available == mid.available - data.len()
    &&& post.write_offset == (mid.write_offset + data.len()) % (mid.buffer_len as int)
    &&& forall|j: int|
        0 <= j < mid.buffer_len ==> #[trigger] ring1[j] == crate::tx_circular::pushed_byte(
            ring0,
            data,
            mid.write_offset as int,
            j,
        )
}

/// A ready consumer faces a hardware-owned descriptor somewhere in the
/// ring, so a reconciliation walk terminates.
proof fn lemma_rx_ready_hardware(c: DescriptorChain, s: RxCircularState)
    requires
        rx_handle_ready(c, s),
        s.wf_for(c),
    ensures
        exists|j: int|
            0 <= j < ring_len(c) && #[trigger] c.descriptors[j].spec_owner() == Owner::Dma,
{
    let n = ring_len(c);
    let (k, r2) = choose|k: int, r2: int| crate::rx_circular::rx_ready_witness(c, s, k, r2);
    assert(crate::rx_circular::rx_ready_witness(c, s, k, r2));
    crate::chain::lemma_ring_index(c, s.read_descr_ptr as int);
    let read = crate::chain::ring_index(c, s.read_descr_ptr as int);
    let start = crate::rx_circular::rx_start(c, s);
    assert(start == ring_step(n, read, k));
    assert(0 <= start < n);
    let j = ring_step(n, start, r2);
    assert(0 <= j < n && c.descriptors[j].spec_owner() == Owner::Dma);
}

} // verus!
