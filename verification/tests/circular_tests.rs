use esp_dma::chain::{DescriptorChain, DESCRIPTOR_BYTES};
use esp_dma::descriptor::{DmaDescriptor, Owner};
use esp_dma::rx_circular::RxCircularState;
use esp_dma::tx_circular::TxCircularState;
use esp_dma::DmaError;

const DESC_BASE: usize = 0x3FC8_1000;
const DATA_BASE: usize = 0x3FC9_0000;

fn empty_descriptors(n: usize) -> Vec<DmaDescriptor>
{
    let mut v = Vec::new();
    for _ in 0..n {
        v.push(DmaDescriptor::empty());
    }
    v
}

/// A circular transmit ring of three 400-byte descriptors over a
/// 1200-byte buffer.
fn tx_ring() -> DescriptorChain {
    let mut chain = DescriptorChain::new(empty_descriptors(3), DESC_BASE);
    assert_eq!(chain.fill_for_tx(true, DATA_BASE, 1200), Ok(()));
    chain
}

fn desc_addr(i: usize) -> usize {
    DESC_BASE + DESCRIPTOR_BYTES * i
}

// TX-circular push/consume: the hardware consumes descriptor 0 and
// reports descriptor 1 as its position; update reclaims 400 bytes, and a
// push of 300 bytes accepts them all, advancing the write cursor.
#[test]
fn tx_circular_push_after_consume() {
    let mut chain = tx_ring();
    let mut state = TxCircularState::new(&mut chain);
    assert_eq!(state.available, 0);
    assert_eq!(state.buffer_len, 1200);
    assert_eq!(state.write_offset, 0);

    // hardware consumed descriptor 0: end-of-frame latch set, last
    // outbound descriptor is descriptor 1
    state.update(&chain, true, desc_addr(1));
    assert_eq!(state.available, 400);

    let mut ring = vec![0u8; 1200];
    let data: Vec<u8> = (0..300u32).map(|i| (i % 251) as u8).collect();
    let pushed = state.push(&chain, &mut ring, &data);
    assert_eq!(pushed, Ok(300));
    assert_eq!(state.write_offset, 300);
    assert_eq!(state.available, 100);
    assert_eq!(&ring[..300], &data[..]);
    assert!(ring[300..].iter().all(|b| *b == 0));
}

// Overflow rejection: a push larger than the reclaimable bytes returns
// Overflow and changes nothing.
#[test]
fn tx_circular_overflow_rejected() {
    let mut chain = tx_ring();
    let mut state = TxCircularState::new(&mut chain);
    state.update(&chain, true, desc_addr(1));
    assert_eq!(state.available, 400);

    let mut ring = vec![0u8; 1200];
    let data = vec![7u8; 500];
    let before = state;
    assert_eq!(state.push(&chain, &mut ring, &data), Err(DmaError::Overflow));
    assert_eq!(state, before);
    assert!(ring.iter().all(|b| *b == 0));
}

// Round trip: pushing 400 bytes and letting the hardware consume exactly
// those 400 bytes restores `available` and leaves the write cursor 400
// bytes further, modulo the buffer length.
#[test]
fn tx_circular_round_trip() {
    let mut chain = tx_ring();
    let mut state = TxCircularState::new(&mut chain);
    state.update(&chain, true, desc_addr(1));
    assert_eq!(state.available, 400);

    let mut ring = vec![0u8; 1200];
    let data = vec![42u8; 400];
    assert_eq!(state.push(&chain, &mut ring, &data), Ok(400));
    assert_eq!(state.available, 0);
    assert_eq!(state.write_offset, 400);

    // the engine moves one descriptor further: 400 bytes reclaimed
    state.update(&chain, true, desc_addr(2));
    assert_eq!(state.available, 400);
    assert_eq!(state.write_offset, 400);
}

// Idempotent update: with the end-of-frame latch clear, or with the
// latch set but no cursor movement, a second update changes nothing.
#[test]
fn tx_circular_update_idempotent() {
    let mut chain = tx_ring();
    let mut state = TxCircularState::new(&mut chain);
    state.update(&chain, true, desc_addr(1));
    let after_first = state;

    // the latch was cleared by the first reconciliation
    state.update(&chain, false, desc_addr(1));
    assert_eq!(state, after_first);

    // even a spurious latch with an unmoved cursor reclaims nothing
    state.update(&chain, true, desc_addr(1));
    assert_eq!(state, after_first);
}

// A push that wraps past the buffer's end lands its tail at the start.
#[test]
fn tx_circular_push_wraps() {
    let mut chain = tx_ring();
    let mut state = TxCircularState::new(&mut chain);
    // the engine went all the way around: walks descriptors 0 and 1,
    // then sees the wrap to head
    state.update(&chain, true, desc_addr(1));
    let mut ring = vec![0u8; 1200];
    assert_eq!(state.push(&chain, &mut ring, &vec![1u8; 400]), Ok(400));
    state.update(&chain, true, desc_addr(2));
    assert_eq!(state.push(&chain, &mut ring, &vec![2u8; 400]), Ok(400));
    state.update(&chain, true, desc_addr(0));
    // cursor wrapped: descriptor 2's bytes reclaimed
    assert_eq!(state.available, 400);
    assert_eq!(state.write_offset, 800);
    let tail = vec![3u8; 400];
    assert_eq!(state.push(&chain, &mut ring, &tail), Ok(400));
    assert_eq!(state.write_offset, 0);
    assert_eq!(&ring[800..], &tail[..]);
}

/// A circular receive ring of three 400-byte descriptors over a
/// 1200-byte buffer.
fn rx_ring() -> DescriptorChain {
    let mut chain = DescriptorChain::new(empty_descriptors(3), DESC_BASE);
    assert_eq!(chain.fill_for_rx(true, DATA_BASE, 1200), Ok(()));
    chain
}

/// Model the engine filling descriptor `i` with `len` received bytes and
/// handing it to the CPU.
fn hardware_fills(chain: &mut DescriptorChain, i: usize, len: usize) {
    let mut d = chain.descriptors[i];
    d.set_length(len);
    d.set_owner(Owner::Cpu);
    chain.descriptors[i] = d;
}

// RX-circular pop: the engine fills descriptors 0 and 1; update counts
// 800 bytes, pop drains them into a 1000-byte output and recycles both
// descriptors to DMA ownership with cleared lengths.
#[test]
fn rx_circular_pop_two_descriptors() {
    let mut chain = rx_ring();
    let mut state = RxCircularState::new(&mut chain);
    assert_eq!(state.available, 0);
    assert_eq!(state.last_seen_handled_descriptor_ptr, 0);

    hardware_fills(&mut chain, 0, 400);
    hardware_fills(&mut chain, 1, 400);

    state.update(&chain);
    assert_eq!(state.available, 800);

    // the receive buffer as the hardware left it
    let mut src = vec![0u8; 1200];
    for (j, b) in src.iter_mut().enumerate() {
        *b = (j % 241) as u8;
    }
    let mut out = vec![0u8; 1000];
    let popped = state.pop(&mut chain, &src, DATA_BASE, &mut out);
    assert_eq!(popped, Ok(800));
    assert_eq!(state.available, 0);
    assert_eq!(&out[..800], &src[..800]);
    assert!(out[800..].iter().all(|b| *b == 0));

    for i in 0..2 {
        let d = chain.descriptors[i];
        assert_eq!(d.owner(), Owner::Dma);
        assert_eq!(d.len(), 0);
        assert!(!d.suc_eof());
        assert_eq!(d.size(), 400);
    }
    assert_eq!(chain.descriptors[2].owner(), Owner::Dma);
    assert_eq!(state.read_descr_ptr, desc_addr(2));
}

// RX pop refuses an output smaller than what is available: a descriptor
// is either fully drained or left untouched.
#[test]
fn rx_circular_pop_buffer_too_small() {
    let mut chain = rx_ring();
    let mut state = RxCircularState::new(&mut chain);
    hardware_fills(&mut chain, 0, 400);
    hardware_fills(&mut chain, 1, 400);
    state.update(&chain);
    assert_eq!(state.available, 800);

    let src = vec![9u8; 1200];
    let mut out = vec![0u8; 500];
    assert_eq!(
        state.pop(&mut chain, &src, DATA_BASE, &mut out),
        Err(DmaError::BufferTooSmall)
    );
    assert_eq!(state.available, 800);
    assert!(out.iter().all(|b| *b == 0));
    assert_eq!(chain.descriptors[0].owner(), Owner::Cpu);
}

// A second reconciliation with no new hardware progress changes nothing.
#[test]
fn rx_circular_update_idempotent() {
    let mut chain = rx_ring();
    let mut state = RxCircularState::new(&mut chain);
    hardware_fills(&mut chain, 0, 400);
    state.update(&chain);
    assert_eq!(state.available, 400);
    let after_first = state;
    state.update(&chain);
    assert_eq!(state, after_first);
}

// The first update seeds the walk at the ring's tail so it starts at the
// head; partial fills are counted as the hardware reports them.
#[test]
fn rx_circular_partial_fill() {
    let mut chain = rx_ring();
    let mut state = RxCircularState::new(&mut chain);
    hardware_fills(&mut chain, 0, 123);
    state.update(&chain);
    assert_eq!(state.available, 123);
    assert_eq!(state.last_seen_handled_descriptor_ptr, desc_addr(0));

    let src = vec![5u8; 1200];
    let mut out = vec![0u8; 123];
    assert_eq!(state.pop(&mut chain, &src, DATA_BASE, &mut out), Ok(123));
    assert_eq!(out, vec![5u8; 123]);
    assert_eq!(state.read_descr_ptr, desc_addr(1));
}
