use esp_dma::chain::{
    is_valid_ram_address, DescriptorChain, CHUNK_SIZE, DESCRIPTOR_BYTES, DMA_RAM_END,
    DMA_RAM_START,
};
use esp_dma::descriptor::{DmaDescriptor, Owner};
use esp_dma::flags::DmaDescriptorFlags;
use esp_dma::DmaError;

const DESC_BASE: usize = 0x3FC8_1000;
const DATA_BASE: usize = 0x3FC9_0000;

fn empty_descriptors(n: usize) -> Vec<DmaDescriptor> {
    let mut v = Vec::new();
    for _ in 0..n {
        v.push(DmaDescriptor::empty());
    }
    v
}

#[test]
fn flags_fields_are_independent() {
    let mut f = DmaDescriptorFlags(0);
    f.set_size(4092);
    f.set_length(1000);
    f.set_suc_eof(true);
    f.set_owner(true);
    assert_eq!(f.size(), 4092);
    assert_eq!(f.length(), 1000);
    assert!(f.suc_eof());
    assert!(f.owner());
    f.set_owner(false);
    assert_eq!(f.size(), 4092);
    assert_eq!(f.length(), 1000);
    assert!(f.suc_eof());
    assert!(!f.owner());
    // bit-exact packing: size bits 0..=11, length bits 12..=23,
    // suc_eof bit 30, owner cleared
    assert_eq!(f.0, 4092 | (1000 << 12) | (1 << 30));
}

#[test]
fn descriptor_accessors_round_trip() {
    let mut d = DmaDescriptor::empty();
    d.set_size(400);
    d.set_length(123);
    d.set_suc_eof(true);
    d.set_owner(Owner::Dma);
    assert_eq!(d.size(), 400);
    assert_eq!(d.len(), 123);
    assert!(d.suc_eof());
    assert_eq!(d.owner(), Owner::Dma);
    d.set_owner(Owner::Cpu);
    assert_eq!(d.owner(), Owner::Cpu);
}

#[test]
fn ram_window_check() {
    assert!(is_valid_ram_address(DMA_RAM_START));
    assert!(is_valid_ram_address(DMA_RAM_END));
    assert!(!is_valid_ram_address(DMA_RAM_START - 1));
    assert!(!is_valid_ram_address(DMA_RAM_END + 1));
    assert!(!is_valid_ram_address(0));
}

// Linear TX of 100 bytes with chunk size 32: four descriptors of sizes
// 32, 32, 32 and 4; only the last carries the end-of-frame mark, and its
// link is null.
#[test]
fn linear_tx_100_bytes_chunk_32() {
    let mut chain = DescriptorChain::new_with_chunk_size(empty_descriptors(4), DESC_BASE, 32);
    let r = chain.fill_for_tx(false, DATA_BASE, 100);
    assert_eq!(r, Ok(()));
    let sizes: Vec<usize> = chain.descriptors.iter().map(|d| d.size()).collect();
    assert_eq!(sizes, vec![32, 32, 32, 4]);
    for (i, d) in chain.descriptors.iter().enumerate() {
        assert_eq!(d.owner(), Owner::Dma);
        assert_eq!(d.len(), d.size());
        assert_eq!(d.suc_eof(), i == 3);
        assert_eq!(d.buffer, DATA_BASE + 32 * i);
        if i < 3 {
            assert_eq!(d.next, DESC_BASE + DESCRIPTOR_BYTES * (i + 1));
        } else {
            assert_eq!(d.next, 0);
        }
    }
}

// Linear RX of 4092 bytes at the default chunk size: one descriptor with
// size 4092, a zero length preload, no end-of-frame mark and a null link.
#[test]
fn linear_rx_4092_bytes_single_descriptor() {
    let mut chain = DescriptorChain::new(empty_descriptors(1), DESC_BASE);
    assert_eq!(chain.chunk_size, CHUNK_SIZE);
    let r = chain.fill_for_rx(false, DATA_BASE, 4092);
    assert_eq!(r, Ok(()));
    let d = chain.descriptors[0];
    assert_eq!(d.size(), 4092);
    assert_eq!(d.len(), 0);
    assert!(!d.suc_eof());
    assert_eq!(d.next, 0);
    assert_eq!(d.owner(), Owner::Dma);
    assert_eq!(d.buffer, DATA_BASE);
}

// Circular TX of 3000 bytes at the default chunk size: the length fits in
// two chunks, so it is split three ways into 1000-byte fragments; every
// fragment asserts end-of-frame and the last links back to the head.
#[test]
fn circular_tx_3000_bytes_three_way_split() {
    let mut chain = DescriptorChain::new(empty_descriptors(3), DESC_BASE);
    let r = chain.fill_for_tx(true, DATA_BASE, 3000);
    assert_eq!(r, Ok(()));
    for (i, d) in chain.descriptors.iter().enumerate() {
        assert_eq!(d.size(), 1000);
        assert_eq!(d.len(), 1000);
        assert!(d.suc_eof());
        assert_eq!(d.owner(), Owner::Dma);
        assert_eq!(d.buffer, DATA_BASE + 1000 * i);
    }
    assert_eq!(chain.descriptors[0].next, DESC_BASE + DESCRIPTOR_BYTES);
    assert_eq!(chain.descriptors[1].next, DESC_BASE + 2 * DESCRIPTOR_BYTES);
    assert_eq!(chain.descriptors[2].next, DESC_BASE);
}

// Chunk count: a linear build uses exactly len divided by chunk size,
// rounded up, with the remainder in the last fragment.
#[test]
fn chunk_count_examples() {
    // 4092 * 2 + 1 bytes at the default chunk needs 3 descriptors
    let mut chain = DescriptorChain::new(empty_descriptors(3), DESC_BASE);
    assert_eq!(chain.fill_for_tx(false, DATA_BASE, 2 * 4092 + 1), Ok(()));
    assert_eq!(chain.descriptors[0].size(), 4092);
    assert_eq!(chain.descriptors[1].size(), 4092);
    assert_eq!(chain.descriptors[2].size(), 1);

    // an exact multiple leaves no remainder fragment
    let mut chain = DescriptorChain::new_with_chunk_size(empty_descriptors(2), DESC_BASE, 50);
    assert_eq!(chain.fill_for_rx(false, DATA_BASE, 100), Ok(()));
    assert_eq!(chain.descriptors[0].size(), 50);
    assert_eq!(chain.descriptors[1].size(), 50);
    assert_eq!(chain.descriptors[1].next, 0);
}

// Circular minimum: a circular build that fits in two chunks uses three
// descriptors whose sizes sum to the data length.
#[test]
fn circular_minimum_examples() {
    for len in [6usize, 7, 100, 1001, 8000] {
        let mut chain = DescriptorChain::new(empty_descriptors(3), DESC_BASE);
        assert_eq!(chain.fill_for_tx(true, DATA_BASE, len), Ok(()), "len {len}");
        let total: usize = chain.descriptors.iter().map(|d| d.size()).sum();
        assert_eq!(total, len, "len {len}");
        let m = len / 3 + len % 3;
        assert_eq!(chain.descriptors[0].size(), m, "len {len}");
        assert_eq!(chain.descriptors[1].size(), m, "len {len}");
        assert_eq!(chain.descriptors[2].size(), len - 2 * m, "len {len}");
        assert!(chain.descriptors[2].size() >= 1, "len {len}");
    }
}

// The lengths 4, 5 and 8 are covered by two fragments of the three-way
// split already; the builder still links them correctly.
#[test]
fn circular_small_two_fragment_cases() {
    for len in [4usize, 5, 8] {
        let mut chain = DescriptorChain::new(empty_descriptors(3), DESC_BASE);
        assert_eq!(chain.fill_for_tx(true, DATA_BASE, len), Ok(()), "len {len}");
        let used: Vec<&DmaDescriptor> =
            chain.descriptors.iter().filter(|d| d.size() > 0).collect();
        assert_eq!(used.len(), 2, "len {len}");
        let total: usize = used.iter().map(|d| d.size()).sum();
        assert_eq!(total, len, "len {len}");
        assert_eq!(chain.descriptors[1].next, DESC_BASE);
    }
}

// Memory validation: any boundary address outside DMA-reachable RAM
// aborts preparation with UnsupportedMemoryRegion and leaves every
// descriptor untouched.
#[test]
fn memory_validation_rejects_outside_ram() {
    // descriptor table outside the window
    let mut chain = DescriptorChain::new(empty_descriptors(2), 0x1000_0000);
    assert_eq!(
        chain.fill_for_tx(false, DATA_BASE, 100),
        Err(DmaError::UnsupportedMemoryRegion)
    );
    assert!(chain.descriptors.iter().all(|d| *d == DmaDescriptor::empty()));

    // data buffer start outside the window
    let mut chain = DescriptorChain::new(empty_descriptors(2), DESC_BASE);
    assert_eq!(
        chain.fill_for_rx(false, 0x2000_0000, 100),
        Err(DmaError::UnsupportedMemoryRegion)
    );
    assert!(chain.descriptors.iter().all(|d| *d == DmaDescriptor::empty()));

    // data buffer end outside the window
    let mut chain = DescriptorChain::new(empty_descriptors(2), DESC_BASE);
    let len = DMA_RAM_END - DATA_BASE + 2;
    assert_eq!(
        chain.fill_for_tx(false, DATA_BASE, len),
        Err(DmaError::UnsupportedMemoryRegion)
    );
    assert!(chain.descriptors.iter().all(|d| *d == DmaDescriptor::empty()));
}

#[test]
fn out_of_descriptors_is_reported() {
    let mut chain = DescriptorChain::new_with_chunk_size(empty_descriptors(2), DESC_BASE, 32);
    assert_eq!(
        chain.fill_for_tx(false, DATA_BASE, 100),
        Err(DmaError::OutOfDescriptors)
    );
    assert_eq!(
        chain.fill_for_rx(false, DATA_BASE, 100),
        Err(DmaError::OutOfDescriptors)
    );
}

#[test]
fn circular_buffer_too_small_is_reported() {
    let mut chain = DescriptorChain::new(empty_descriptors(3), DESC_BASE);
    assert_eq!(chain.fill_for_tx(true, DATA_BASE, 3), Err(DmaError::BufferTooSmall));
    assert_eq!(chain.fill_for_rx(true, DATA_BASE, 2), Err(DmaError::BufferTooSmall));
}

// The transmit builder tests the circular minimum before the descriptor
// supply; the receive builder tests them the other way around.
#[test]
fn error_priority_differs_between_directions() {
    // circular, length 3, supply exactly enough: both directions report
    // the circular minimum
    let mut chain = DescriptorChain::new_with_chunk_size(empty_descriptors(3), DESC_BASE, 1);
    assert_eq!(chain.fill_for_tx(true, DATA_BASE, 3), Err(DmaError::BufferTooSmall));
    assert_eq!(chain.fill_for_rx(true, DATA_BASE, 3), Err(DmaError::BufferTooSmall));
    // circular, length 3, supply too small: the transmit builder still
    // reports the circular minimum first, the receive builder the
    // descriptor supply
    let mut small = DescriptorChain::new_with_chunk_size(empty_descriptors(1), DESC_BASE, 1);
    assert_eq!(small.fill_for_rx(true, DATA_BASE, 3), Err(DmaError::OutOfDescriptors));
    assert_eq!(small.fill_for_tx(true, DATA_BASE, 3), Err(DmaError::BufferTooSmall));
}

#[test]
fn first_and_last_report_table_bounds() {
    let mut chain = DescriptorChain::new(empty_descriptors(4), DESC_BASE);
    assert_eq!(chain.first(), DESC_BASE);
    assert_eq!(chain.last(), DESC_BASE + 3 * DESCRIPTOR_BYTES);
    assert_eq!(chain.first_mut(), DESC_BASE);
    assert_eq!(chain.last_mut(), DESC_BASE + 3 * DESCRIPTOR_BYTES);
}

// A zero-length linear build still initializes one empty descriptor.
#[test]
fn zero_length_build_uses_one_descriptor() {
    let mut chain = DescriptorChain::new(empty_descriptors(2), DESC_BASE);
    assert_eq!(chain.fill_for_tx(false, DATA_BASE, 0), Ok(()));
    assert_eq!(chain.descriptors[0].size(), 0);
    assert!(chain.descriptors[0].suc_eof());
    assert_eq!(chain.descriptors[0].next, 0);
    assert_eq!(chain.descriptors[1], DmaDescriptor::empty());
}
