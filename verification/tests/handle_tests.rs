use esp_dma::chain::DescriptorChain;
use esp_dma::channel::{
    check_burst_alignment, isr_actions, DmaPeripheral, DmaPriority, IsrStatus, Rx, Tx,
};
use esp_dma::descriptor::DmaDescriptor;
use esp_dma::future::{DmaRxFuture, DmaTxFuture};
use esp_dma::transfer::{
    completion_result, DmaSupport, DmaSupportRx, DmaSupportTx, DmaTransferRx, DmaTransferRxCircular,
    DmaTransferTx, DmaTransferTxCircular, DmaTransferTxRx,
};
use esp_dma::DmaError;

const DESC_BASE: usize = 0x3FC8_1000;
const DATA_BASE: usize = 0x3FC9_0000;

fn empty_descriptors(n: usize) -> Vec<DmaDescriptor> {
    let mut v = Vec::new();
    for _ in 0..n {
        v.push(DmaDescriptor::empty());
    }
    v
}

/// A transmit channel half whose status bits are scripted.
#[derive(Default)]
struct MockTx {
    done: bool,
    error: bool,
    eof_latch: bool,
    last_out: usize,
    listening_eof: bool,
    listening_error: bool,
    listening_ch_done: bool,
    ch_done: bool,
    interrupts_cleared: usize,
    latch_resets: usize,
}

impl Tx for MockTx {
    fn init(&mut self, _burst_mode: bool, _priority: DmaPriority) {}
    fn init_channel(&mut self) {}
    fn prepare_transfer_without_start(
        &mut self,
        _peri: DmaPeripheral,
        _chain: &DescriptorChain,
    ) -> Result<(), DmaError> {
        Ok(())
    }
    fn start_transfer(&mut self) -> Result<(), DmaError> {
        Ok(())
    }
    fn clear_ch_out_done(&mut self) {
        self.ch_done = false;
    }
    fn is_ch_out_done_set(&mut self) -> bool {
        self.ch_done
    }
    fn listen_ch_out_done(&mut self) {
        self.listening_ch_done = true;
    }
    fn unlisten_ch_out_done(&mut self) {
        self.listening_ch_done = false;
    }
    fn is_listening_ch_out_done(&mut self) -> bool {
        self.listening_ch_done
    }
    fn is_done(&mut self) -> bool {
        self.done
    }
    fn is_listening_eof(&mut self) -> bool {
        self.listening_eof
    }
    fn listen_eof(&mut self) {
        self.listening_eof = true;
    }
    fn unlisten_eof(&mut self) {
        self.listening_eof = false;
    }
    fn is_listening_out_descriptor_error(&mut self) -> bool {
        self.listening_error
    }
    fn listen_out_descriptor_error(&mut self) {
        self.listening_error = true;
    }
    fn unlisten_out_descriptor_error(&mut self) {
        self.listening_error = false;
    }
    fn has_error(&mut self) -> bool {
        self.error
    }
    fn clear_interrupts(&mut self) {
        self.interrupts_cleared += 1;
    }
    fn descriptors_handled(&mut self) -> bool {
        self.eof_latch
    }
    fn reset_descriptors_handled(&mut self) {
        self.eof_latch = false;
        self.latch_resets += 1;
    }
    fn last_out_dscr_address(&mut self) -> usize {
        self.last_out
    }
}

/// A receive channel half whose status bits are scripted.
#[derive(Default)]
struct MockRx {
    done: bool,
    error: bool,
    dscr_empty_error: bool,
    eof_error: bool,
    listening_eof: bool,
    listening_error: bool,
    listening_dscr_empty: bool,
    listening_err_eof: bool,
    listening_ch_done: bool,
    ch_done: bool,
    interrupts_cleared: usize,
}

impl Rx for MockRx {
    fn init(&mut self, _burst_mode: bool, _priority: DmaPriority) {}
    fn init_channel(&mut self) {}
    fn prepare_transfer_without_start(
        &mut self,
        _peri: DmaPeripheral,
        _chain: &DescriptorChain,
    ) -> Result<(), DmaError> {
        Ok(())
    }
    fn start_transfer(&mut self) -> Result<(), DmaError> {
        Ok(())
    }
    fn listen_ch_in_done(&mut self) {
        self.listening_ch_done = true;
    }
    fn clear_ch_in_done(&mut self) {
        self.ch_done = false;
    }
    fn is_ch_in_done_set(&mut self) -> bool {
        self.ch_done
    }
    fn unlisten_ch_in_done(&mut self) {
        self.listening_ch_done = false;
    }
    fn is_listening_ch_in_done(&mut self) -> bool {
        self.listening_ch_done
    }
    fn is_done(&mut self) -> bool {
        self.done
    }
    fn is_listening_eof(&mut self) -> bool {
        self.listening_eof
    }
    fn listen_eof(&mut self) {
        self.listening_eof = true;
    }
    fn unlisten_eof(&mut self) {
        self.listening_eof = false;
    }
    fn has_error(&mut self) -> bool {
        self.error
    }
    fn has_dscr_empty_error(&mut self) -> bool {
        self.dscr_empty_error
    }
    fn has_eof_error(&mut self) -> bool {
        self.eof_error
    }
    fn is_listening_in_descriptor_error(&mut self) -> bool {
        self.listening_error
    }
    fn listen_in_descriptor_error(&mut self) {
        self.listening_error = true;
    }
    fn unlisten_in_descriptor_error(&mut self) {
        self.listening_error = false;
    }
    fn is_listening_in_descriptor_error_dscr_empty(&mut self) -> bool {
        self.listening_dscr_empty
    }
    fn listen_in_descriptor_error_dscr_empty(&mut self) {
        self.listening_dscr_empty = true;
    }
    fn unlisten_in_descriptor_error_dscr_empty(&mut self) {
        self.listening_dscr_empty = false;
    }
    fn is_listening_in_descriptor_error_err_eof(&mut self) -> bool {
        self.listening_err_eof
    }
    fn listen_in_descriptor_error_err_eof(&mut self) {
        self.listening_err_eof = true;
    }
    fn unlisten_in_descriptor_error_err_eof(&mut self) {
        self.listening_err_eof = false;
    }
    fn clear_interrupts(&mut self) {
        self.interrupts_cleared += 1;
    }
}

/// A peripheral driver built around the two mock halves.
struct MockPeriph {
    tx: MockTx,
    rx: MockRx,
    chain: DescriptorChain,
    waits: usize,
    stops: usize,
}

impl MockPeriph {
    fn new() -> Self {
        MockPeriph {
            tx: MockTx::default(),
            rx: MockRx::default(),
            chain: DescriptorChain::new(empty_descriptors(3), DESC_BASE),
            waits: 0,
            stops: 0,
        }
    }
}

impl DmaSupport for MockPeriph {
    fn peripheral_wait_dma(&mut self, _is_tx: bool, _is_rx: bool) {
        self.waits += 1;
    }
    fn peripheral_dma_stop(&mut self) {
        self.stops += 1;
    }
}

impl DmaSupportTx for MockPeriph {
    type TX = MockTx;
    fn tx(&mut self) -> &mut MockTx {
        &mut self.tx
    }
    fn chain(&mut self) -> &mut DescriptorChain {
        &mut self.chain
    }
}

impl DmaSupportRx for MockPeriph {
    type RX = MockRx;
    fn rx(&mut self) -> &mut MockRx {
        &mut self.rx
    }
    fn chain(&mut self) -> &mut DescriptorChain {
        &mut self.chain
    }
}

#[test]
fn completion_result_decision() {
    assert_eq!(completion_result(false), Ok(()));
    assert_eq!(completion_result(true), Err(DmaError::DescriptorError));
}

#[test]
fn transfer_tx_wait_ok_and_error() {
    let periph = MockPeriph::new();
    let transfer = DmaTransferTx::new(periph);
    let (periph, res) = transfer.wait();
    assert_eq!(res, Ok(()));
    assert_eq!(periph.waits, 1);

    let mut periph2 = MockPeriph::new();
    periph2.tx.error = true;
    let transfer = DmaTransferTx::new(periph2);
    let (periph2, res) = transfer.wait();
    assert_eq!(res, Err(DmaError::DescriptorError));
    assert_eq!(periph2.waits, 1);
}

#[test]
fn transfer_rx_wait_ok_and_error() {
    let periph = MockPeriph::new();
    let transfer = DmaTransferRx::new(periph);
    let (periph, res) = transfer.wait();
    assert_eq!(res, Ok(()));
    assert_eq!(periph.waits, 1);

    let mut periph2 = MockPeriph::new();
    periph2.rx.error = true;
    let (_, res) = DmaTransferRx::new(periph2).wait();
    assert_eq!(res, Err(DmaError::DescriptorError));
}

#[test]
fn transfer_tx_rx_wait_combines_errors() {
    let periph = MockPeriph::new();
    let (_, res) = DmaTransferTxRx::new(periph).wait();
    assert_eq!(res, Ok(()));

    let mut periph = MockPeriph::new();
    periph.rx.error = true;
    let (_, res) = DmaTransferTxRx::new(periph).wait();
    assert_eq!(res, Err(DmaError::DescriptorError));

    let mut periph = MockPeriph::new();
    periph.tx.error = true;
    let (_, res) = DmaTransferTxRx::new(periph).wait();
    assert_eq!(res, Err(DmaError::DescriptorError));
}

#[test]
fn transfer_is_done_reads_channel() {
    let mut periph = MockPeriph::new();
    periph.tx.done = true;
    let mut transfer = DmaTransferTx::new(periph);
    assert!(transfer.is_done());
}

#[test]
fn tx_circular_handle_full_cycle() {
    let mut periph = MockPeriph::new();
    let mut chain = DescriptorChain::new(empty_descriptors(3), DESC_BASE);
    assert_eq!(chain.fill_for_tx(true, DATA_BASE, 1200), Ok(()));

    periph.tx.eof_latch = true;
    periph.tx.last_out = DESC_BASE + 12;

    let mut handle = DmaTransferTxCircular::new(periph, &mut chain);
    let avail = handle.available(&chain);
    assert_eq!(avail, 400);
    assert_eq!(handle.instance.tx.latch_resets, 1);

    let mut ring = vec![0u8; 1200];
    let data = vec![9u8; 300];
    assert_eq!(handle.push(&chain, &mut ring, &data), Ok(300));
    assert_eq!(handle.state.write_offset, 300);
    assert_eq!(handle.state.available, 100);
    assert_eq!(&ring[..300], &data[..]);

    assert_eq!(
        handle.push(&chain, &mut ring, &vec![1u8; 500]),
        Err(DmaError::Overflow)
    );

    let (periph, res) = handle.stop();
    assert_eq!(res, Ok(()));
    assert_eq!(periph.stops, 1);
}

#[test]
fn tx_circular_handle_empty_push_always_accepted() {
    let periph = MockPeriph::new();
    let mut chain = DescriptorChain::new(empty_descriptors(3), DESC_BASE);
    assert_eq!(chain.fill_for_tx(true, DATA_BASE, 1200), Ok(()));
    // nothing reclaimable yet: a non-empty push overflows, an empty one
    // succeeds regardless
    let mut handle = DmaTransferTxCircular::new(periph, &mut chain);
    let mut ring = vec![0u8; 1200];
    assert_eq!(handle.push(&chain, &mut ring, &[]), Ok(0));
    assert_eq!(handle.push(&chain, &mut ring, &[1u8]), Err(DmaError::Overflow));
    assert_eq!(handle.state.write_offset, 0);
    assert_eq!(handle.state.available, 0);
}

#[test]
fn tx_circular_handle_push_with_closure() {
    let mut periph = MockPeriph::new();
    let mut chain = DescriptorChain::new(empty_descriptors(3), DESC_BASE);
    assert_eq!(chain.fill_for_tx(true, DATA_BASE, 1200), Ok(()));
    periph.tx.eof_latch = true;
    periph.tx.last_out = DESC_BASE + 12;

    let mut handle = DmaTransferTxCircular::new(periph, &mut chain);
    let mut ring = vec![0u8; 1200];
    let written = handle.push_with(&chain, &mut ring, |mut block: Vec<u8>| {
        let n = if block.len() < 64 { block.len() } else { 64 };
        for j in 0..n {
            block[j] = 0xAA;
        }
        (block, n)
    });
    assert_eq!(written, Ok(64));
    assert_eq!(handle.state.write_offset, 64);
    assert_eq!(handle.state.available, 400 - 64);
    assert!(ring[..64].iter().all(|b| *b == 0xAA));
    assert!(ring[64..].iter().all(|b| *b == 0));
}

#[test]
fn tx_circular_handle_ignores_bogus_cursor() {
    let mut periph = MockPeriph::new();
    let mut chain = DescriptorChain::new(empty_descriptors(3), DESC_BASE);
    assert_eq!(chain.fill_for_tx(true, DATA_BASE, 1200), Ok(()));
    periph.tx.eof_latch = true;
    periph.tx.last_out = 0xDEAD_BEEF;  // not a descriptor of the ring

    let mut handle = DmaTransferTxCircular::new(periph, &mut chain);
    assert_eq!(handle.available(&chain), 0);
}

#[test]
fn rx_circular_handle_pop() {
    let mut periph = MockPeriph::new();
    let mut chain = DescriptorChain::new(empty_descriptors(3), DESC_BASE);
    assert_eq!(chain.fill_for_rx(true, DATA_BASE, 1200), Ok(()));
    // the engine filled descriptors 0 and 1
    for i in 0..2 {
        let mut d = chain.descriptors[i];
        d.set_length(400);
        d.set_owner(esp_dma::descriptor::Owner::Cpu);
        chain.descriptors[i] = d;
    }

    let mut handle = DmaTransferRxCircular::new(periph, &mut chain);
    assert_eq!(handle.available(&chain), 800);

    let src = vec![3u8; 1200];
    let mut out = vec![0u8; 1000];
    let popped = handle.pop(&mut chain, &src, DATA_BASE, &mut out);
    assert_eq!(popped, Ok(800));
    assert!(out[..800].iter().all(|b| *b == 3));
    assert!(out[800..].iter().all(|b| *b == 0));
    periph = handle.instance;
    assert_eq!(periph.stops, 0);
}

#[test]
fn tx_future_poll_transitions() {
    let mut future = DmaTxFuture::new(MockTx::default());
    // pending: listens are armed
    assert_eq!(future.poll(), None);
    assert!(future.tx.listening_eof);
    assert!(future.tx.listening_error);

    // done: resolves ready-ok and clears interrupts
    future.tx.done = true;
    assert_eq!(future.poll(), Some(Ok(())));
    assert_eq!(future.tx.interrupts_cleared, 1);

    // error: resolves the descriptor error
    future.tx.done = false;
    future.tx.error = true;
    assert_eq!(future.poll(), Some(Err(DmaError::DescriptorError)));

    // cancellation disarms exactly the armed listens
    future.disarm();
    assert!(!future.tx.listening_eof);
    assert!(!future.tx.listening_error);
}

#[test]
fn rx_future_poll_transitions() {
    let mut future = DmaRxFuture::new(MockRx::default());
    assert_eq!(future.poll(), None);
    assert!(future.rx.listening_eof);
    assert!(future.rx.listening_error);
    assert!(future.rx.listening_dscr_empty);
    assert!(future.rx.listening_err_eof);

    future.rx.eof_error = true;
    assert_eq!(future.poll(), Some(Err(DmaError::DescriptorError)));
    assert_eq!(future.rx.interrupts_cleared, 1);

    future.rx.eof_error = false;
    future.rx.done = true;
    assert_eq!(future.poll(), Some(Ok(())));

    future.disarm();
    assert!(!future.rx.listening_eof);
    assert!(!future.rx.listening_error);
    assert!(!future.rx.listening_dscr_empty);
    assert!(!future.rx.listening_err_eof);
}

#[test]
fn isr_dispatch_decision() {
    let quiet = IsrStatus {
        in_descriptor_error: false,
        in_descriptor_error_dscr_empty: false,
        in_descriptor_error_err_eof: false,
        out_descriptor_error: false,
        in_done: false,
        listening_in_eof: false,
        ch_in_done: false,
        out_done: false,
        listening_out_eof: false,
        ch_out_done: false,
    };
    let a = isr_actions(quiet);
    assert!(!a.wake_rx && !a.wake_tx);
    assert!(!a.unlisten_in_errors && !a.unlisten_out_error);

    // an inbound error wakes the receive side and drops its listens
    let a = isr_actions(IsrStatus { in_descriptor_error_dscr_empty: true, ..quiet });
    assert!(a.wake_rx && !a.wake_tx);
    assert!(a.unlisten_in_errors && a.unlisten_in_eof && a.unlisten_ch_in_done);
    assert!(!a.unlisten_out_eof);

    // inbound done wakes only when the end-of-frame listen was armed
    let a = isr_actions(IsrStatus { in_done: true, ..quiet });
    assert!(!a.wake_rx);
    let a = isr_actions(IsrStatus { in_done: true, listening_in_eof: true, ..quiet });
    assert!(a.wake_rx && a.unlisten_in_eof && !a.unlisten_in_errors);

    // an outbound channel-done latch wakes the transmit side
    let a = isr_actions(IsrStatus { ch_out_done: true, ..quiet });
    assert!(a.wake_tx && a.unlisten_ch_out_done && !a.wake_rx);
}

#[test]
fn burst_alignment_gate() {
    let mut chain = DescriptorChain::new_with_chunk_size(empty_descriptors(2), DESC_BASE, 64);
    assert_eq!(chain.fill_for_rx(false, DATA_BASE, 128), Ok(()));
    // without burst mode everything passes
    assert_eq!(check_burst_alignment(&chain, false), Ok(()));
    // aligned RX chains have zero length preloads and aligned buffers
    assert_eq!(check_burst_alignment(&chain, true), Ok(()));
    // an unaligned buffer address is rejected in burst mode
    let mut d = chain.descriptors[1];
    d.buffer = DATA_BASE + 65;
    d.set_length(4);
    chain.descriptors[1] = d;
    assert_eq!(check_burst_alignment(&chain, true), Err(DmaError::InvalidAlignment));
    // an unaligned length is rejected too
    let mut d = chain.descriptors[1];
    d.buffer = DATA_BASE + 64;
    d.set_length(3);
    chain.descriptors[1] = d;
    assert_eq!(check_burst_alignment(&chain, true), Err(DmaError::InvalidAlignment));
}

#[test]
fn peripheral_and_priority_selectors() {
    assert_eq!(DmaPeripheral::Spi2.number(), 0);
    assert_eq!(DmaPeripheral::I2s0.number(), 3);
    assert_eq!(DmaPeripheral::Adc.number(), 8);
    assert_eq!(DmaPriority::Priority0.number(), 0);
    assert_eq!(DmaPriority::Priority9.number(), 9);
}
