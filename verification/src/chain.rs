//! The descriptor chain and its builder.
//!
//! A chain is a caller-owned contiguous table of descriptors plus a
//! configured chunk size. The builder fills the table for a transmit or a
//! receive transfer, linear or circular, splitting the data buffer into
//! fragments of at most `chunk_size` bytes and linking the descriptors in
//! order. The descriptor table is modelled as a `Vec` sitting at a known
//! base address in DMA-reachable RAM; each descriptor occupies 12 bytes, so
//! descriptor `i` lives at `base_address + 12 * i`.

use vstd::prelude::*;
use vstd::arithmetic::div_mod::{lemma_fundamental_div_mod, lemma_mod_bound};
use crate::descriptor::{DmaDescriptor, Owner};
use crate::DmaError;

verus! {

/// The default (and largest) fragment size used for DMA transfers: one less
/// than the 12-bit `size` field's maximum, leaving room for alignment
/// rounding.
pub const CHUNK_SIZE: usize = 4092;

/// Size in bytes of one descriptor record as laid out in RAM.
pub const DESCRIPTOR_BYTES: usize = 12;

/// First address of the DMA-reachable RAM window.
pub const DMA_RAM_START: usize = 0x3FC8_0000;

/// Last address of the DMA-reachable RAM window.
pub const DMA_RAM_END: usize = 0x3FD0_0000;

/// Whether an address lies in DMA-reachable RAM.
pub open spec fn spec_valid_ram_address(addr: int) -> bool {
    DMA_RAM_START <= addr <= DMA_RAM_END
}

/// Whether `address` lies in DMA-reachable RAM. Descriptors and data
/// buffers handed to the DMA engine must pass this check.
pub fn is_valid_ram_address(address: usize) -> (r: bool)
    ensures
        r == spec_valid_ram_address(address as int),
{
    DMA_RAM_START <= address && address <= DMA_RAM_END
}

/// `len / chunk`, rounded up.
pub open spec fn div_ceil_spec(len: int, chunk: int) -> int {
    (len + chunk - 1) / chunk
}

/// The fragment capacity the builder uses: the configured chunk size, except
/// for a circular transfer that fits in two chunks, which is split into
/// three near-equal fragments instead (circular engines latch progress per
/// descriptor, so at least three descriptors are needed to disambiguate the
/// producer and consumer positions).
pub open spec fn max_chunk_size_spec(len: int, chunk_size: int, circular: bool) -> int {
    if !circular || len > 2 * chunk_size {
        chunk_size
    } else {
        len / 3 + len % 3
    }
}

/// How many descriptors a successful build fills.
pub open spec fn descriptor_count(len: int, chunk_size: int, circular: bool) -> int {
    if len == 0 {
        1
    } else {
        div_ceil_spec(len, max_chunk_size_spec(len, chunk_size, circular))
    }
}

/// The byte count of fragment `i`: a full fragment except for the last,
/// which absorbs the remainder.
pub open spec fn fragment_size(len: int, chunk_size: int, circular: bool, i: int) -> int {
    let m = max_chunk_size_spec(len, chunk_size, circular);
    if len - i * m < m {
        len - i * m
    } else {
        m
    }
}

/// A borrowed contiguous table of descriptors plus a configured chunk size.
#[derive(Debug)]
pub struct DescriptorChain {
    /// The descriptor table. Hardware reads and writes these records; a
    /// test or an embedding may mutate them to reflect engine progress.
    pub descriptors: Vec<DmaDescriptor>,
    /// The address of `descriptors[0]` in DMA-reachable RAM.
    pub base_address: usize,
    /// The fragment capacity, between 1 and [`CHUNK_SIZE`].
    pub chunk_size: usize,
}

impl DescriptorChain {
    /// Structural well-formedness: a non-empty table at a non-null base
    /// address whose records all have representable addresses.
    pub open spec fn wf(self) -> bool {
        &&& 1 <= self.chunk_size <= CHUNK_SIZE
        &&& 1 <= self.descriptors.len()
        &&& 1 <= self.base_address
        &&& self.base_address + DESCRIPTOR_BYTES * self.descriptors.len() <= usize::MAX
    }

    /// The address of descriptor `i`.
    pub open spec fn desc_addr(self, i: int) -> int {
        self.base_address + DESCRIPTOR_BYTES * i
    }

    /// A chain over `descriptors` (sitting at `base_address`) with the
    /// default chunk size.
    pub fn new(descriptors: Vec<DmaDescriptor>, base_address: usize) -> (r: Self)
        requires
            1 <= descriptors.len(),
            1 <= base_address,
            base_address + DESCRIPTOR_BYTES * descriptors.len() <= usize::MAX,
        ensures
            r.descriptors == descriptors,
            r.base_address == base_address,
            r.chunk_size == CHUNK_SIZE,
            r.wf(),
    {
        DescriptorChain { descriptors, base_address, chunk_size: CHUNK_SIZE }
    }

    /// A chain over `descriptors` with an explicit chunk size between 1 and
    /// [`CHUNK_SIZE`].
    pub fn new_with_chunk_size(
        descriptors: Vec<DmaDescriptor>,
        base_address: usize,
        chunk_size: usize,
    ) -> (r: Self)
        requires
            1 <= descriptors.len(),
            1 <= base_address,
            base_address + DESCRIPTOR_BYTES * descriptors.len() <= usize::MAX,
            1 <= chunk_size <= CHUNK_SIZE,
        ensures
            r.descriptors == descriptors,
            r.base_address == base_address,
            r.chunk_size == chunk_size,
            r.wf(),
    {
        DescriptorChain { descriptors, base_address, chunk_size }
    }

    /// The address of the first descriptor, for mutation by the engine.
    pub fn first_mut(&mut self) -> (r: usize)
        requires
            old(self).wf(),
        ensures
            *final(self) == *old(self),
            r == old(self).base_address,
    {
        self.base_address
    }

    /// The address of the first descriptor.
    pub fn first(&self) -> (r: usize)
        requires
            self.wf(),
        ensures
            r == self.base_address,
    {
        self.base_address
    }

    /// The address of the last descriptor in the table, for mutation by the
    /// engine.
    pub fn last_mut(&mut self) -> (r: usize)
        requires
            old(self).wf(),
        ensures
            *final(self) == *old(self),
            r == old(self).desc_addr(old(self).descriptors.len() - 1),
    {
        self.base_address + DESCRIPTOR_BYTES * (self.descriptors.len() - 1)
    }

    /// The address of the last descriptor in the table.
    pub fn last(&self) -> (r: usize)
        requires
            self.wf(),
        ensures
            r == self.desc_addr(self.descriptors.len() - 1),
    {
        self.base_address + DESCRIPTOR_BYTES * (self.descriptors.len() - 1)
    }
}

/// What a successful build writes into descriptor `i` of the chain:
/// fragment sizes per the chunking policy, ownership handed to the DMA
/// engine, the end-of-frame marker on every fragment of a circular transmit
/// chain and on the final fragment of a linear one, the transmit length
/// preloaded (receive lengths start at zero), the buffer pointing at the
/// fragment's bytes, and the link to the next descriptor (head for the last
/// descriptor of a circular chain, null for a linear one).
pub open spec fn filled_descriptor(
    c: DescriptorChain,
    circular: bool,
    is_tx: bool,
    data: int,
    len: int,
    i: int,
) -> bool {
    let m = max_chunk_size_spec(len, c.chunk_size as int, circular);
    let n = descriptor_count(len, c.chunk_size as int, circular);
    let d = c.descriptors[i];
    &&& d.spec_size() == fragment_size(len, c.chunk_size as int, circular, i)
    &&& d.spec_len() == if is_tx {
        fragment_size(len, c.chunk_size as int, circular, i)
    } else {
        0
    }
    &&& d.spec_owner() == Owner::Dma
    &&& d.spec_suc_eof() == (is_tx && (circular || i == n - 1))
    &&& d.buffer == data + i * m
    &&& d.next == if i < n - 1 {
        c.desc_addr(i + 1)
    } else if circular {
        c.base_address as int
    } else {
        0
    }
}

/// All four boundary addresses of a prepared transfer lie in DMA-reachable
/// RAM: the first and last descriptor, and both ends of the data buffer.
pub open spec fn addresses_ok(c: DescriptorChain, data: int, len: int) -> bool {
    &&& spec_valid_ram_address(c.desc_addr(0))
    &&& spec_valid_ram_address(c.desc_addr(c.descriptors.len() - 1))
    &&& spec_valid_ram_address(data)
    &&& spec_valid_ram_address(data + len)
}

/// Which error a transmit build reports, if any, in the order the checks
/// are made.
pub open spec fn tx_prepare_error(
    c: DescriptorChain,
    circular: bool,
    data: int,
    len: int,
) -> Option<DmaError> {
    if !addresses_ok(c, data, len) {
        Some(DmaError::UnsupportedMemoryRegion)
    } else if circular && len <= 3 {
        Some(DmaError::BufferTooSmall)
    } else if c.descriptors.len() < div_ceil_spec(len, c.chunk_size as int) {
        Some(DmaError::OutOfDescriptors)
    } else {
        None
    }
}

/// Which error a receive build reports, if any. The receive builder checks
/// the descriptor supply before the circular minimum, so the two error
/// priorities differ from the transmit builder's.
pub open spec fn rx_prepare_error(
    c: DescriptorChain,
    circular: bool,
    data: int,
    len: int,
) -> Option<DmaError> {
    if !addresses_ok(c, data, len) {
        Some(DmaError::UnsupportedMemoryRegion)
    } else if c.descriptors.len() < div_ceil_spec(len, c.chunk_size as int) {
        Some(DmaError::OutOfDescriptors)
    } else if circular && len <= 3 {
        Some(DmaError::BufferTooSmall)
    } else {
        None
    }
}

/// A successful build: the first `descriptor_count` records are filled and
/// linked, the rest of the table is cleared.
pub open spec fn built(
    c: DescriptorChain,
    circular: bool,
    is_tx: bool,
    data: int,
    len: int,
) -> bool {
    let n = descriptor_count(len, c.chunk_size as int, circular);
    &&& n <= c.descriptors.len()
    &&& forall|i: int| 0 <= i < n ==> filled_descriptor(c, circular, is_tx, data, len, i)
    &&& forall|i: int|
        n <= i < c.descriptors.len() ==> c.descriptors[i] == DmaDescriptor::spec_empty()
}

/// Bounds of the rounded-up quotient: for positive `len`, `n` fragments of
/// capacity `m` cover `len` bytes, and `n - 1` do not.
pub proof fn lemma_ceil_bounds(len: int, m: int)
    requires
        1 <= m,
        1 <= len,
    ensures
        1 <= div_ceil_spec(len, m),
        len <= div_ceil_spec(len, m) * m,
        (div_ceil_spec(len, m) - 1) * m < len,
{
    let x = len + m - 1;
    lemma_fundamental_div_mod(x, m);
    lemma_mod_bound(x, m);
    let n = x / m;
    let r = x % m;
    assert(m * n == len + m - 1 - r);
    assert(len <= n * m) by (nonlinear_arith)
        requires
            m * n == len + m - 1 - r,
            r < m,
    ;
    assert((n - 1) * m < len) by (nonlinear_arith)
        requires
            m * n == len + m - 1 - r,
            0 <= r,
    ;
    assert(1 <= n) by (nonlinear_arith)
        requires
            len <= n * m,
            1 <= m,
            1 <= len,
    ;
}

/// For a circular transfer that fits in two chunks, the three-way split
/// uses fragments of at most 2730 bytes and exactly 2 or 3 descriptors.
pub proof fn lemma_small_circular_split(len: int, chunk_size: int)
    requires
        1 <= chunk_size <= CHUNK_SIZE,
        4 <= len,
        len <= 2 * chunk_size,
    ensures
        1 <= max_chunk_size_spec(len, chunk_size, true) <= 2730,
        descriptor_count(len, chunk_size, true) <= 3,
{
    let m = max_chunk_size_spec(len, chunk_size, true);
    lemma_fundamental_div_mod(len, 3);
    lemma_mod_bound(len, 3);
    let q = len / 3;
    let r = len % 3;
    assert(m == q + r);
    assert(1 <= q) by (nonlinear_arith)
        requires
            len == 3 * q + r,
            r < 3,
            4 <= len,
    ;
    assert(q <= 2728) by (nonlinear_arith)
        requires
            len == 3 * q + r,
            0 <= r,
            len <= 8184,
    ;
    assert(len <= 3 * m) by (nonlinear_arith)
        requires
            len == 3 * q + r,
            m == q + r,
            0 <= r,
    ;
    let n = div_ceil_spec(len, m);
    lemma_ceil_bounds(len, m);
    assert(n <= 3) by (nonlinear_arith)
        requires
            (n - 1) * m < len,
            len <= 3 * m,
            1 <= m,
    ;
}

/// The fragment capacity of any accepted build is between 1 and 4092, and
/// the build fits in the table whenever the builder's checks pass.
pub proof fn lemma_build_geometry(c: DescriptorChain, circular: bool, len: int)
    requires
        c.wf(),
        circular ==> 3 <= c.descriptors.len(),
        circular ==> 4 <= len,
        !(circular && len <= 2 * c.chunk_size) ==> div_ceil_spec(len, c.chunk_size as int)
            <= c.descriptors.len(),
        0 <= len,
    ensures
        1 <= max_chunk_size_spec(len, c.chunk_size as int, circular) <= CHUNK_SIZE,
        descriptor_count(len, c.chunk_size as int, circular) <= c.descriptors.len(),
        1 <= descriptor_count(len, c.chunk_size as int, circular),
{
    let cs = c.chunk_size as int;
    let m = max_chunk_size_spec(len, cs, circular);
    let n = descriptor_count(len, cs, circular);
    if circular && len <= 2 * cs {
        lemma_small_circular_split(len, cs);
        lemma_ceil_bounds(len, m);
    } else {
        if len == 0 {
        } else {
            lemma_ceil_bounds(len, m);
        }
    }
}

/// The total byte count of the first `k` fragments of a build.
pub open spec fn fragments_total(len: int, chunk_size: int, circular: bool, k: int) -> int
    decreases k,
{
    if k <= 0 {
        0
    } else {
        fragments_total(len, chunk_size, circular, k - 1) + fragment_size(
            len,
            chunk_size,
            circular,
            k - 1,
        )
    }
}

/// Coverage law: the fragments of a build partition the data buffer. The
/// first `k` fragments cover `k` full chunks, and all `descriptor_count`
/// fragments together cover exactly `len` bytes.
pub proof fn lemma_fragments_cover(len: int, chunk_size: int, circular: bool, k: int)
    requires
        0 <= len,
        1 <= max_chunk_size_spec(len, chunk_size, circular),
        0 <= k <= descriptor_count(len, chunk_size, circular),
    ensures
        fragments_total(len, chunk_size, circular, k) == if k < descriptor_count(
            len,
            chunk_size,
            circular,
        ) {
            k * max_chunk_size_spec(len, chunk_size, circular)
        } else {
            len
        },
    decreases k,
{
    let m = max_chunk_size_spec(len, chunk_size, circular);
    let n = descriptor_count(len, chunk_size, circular);
    if k <= 0 {
        assert(0 * m == 0) by (nonlinear_arith);
        if len != 0 {
            lemma_ceil_bounds(len, m);
        }
    } else {
        lemma_fragments_cover(len, chunk_size, circular, k - 1);
        lemma_fill_step(len, m, n, k - 1);
    }
}

/// Chunk count law: a linear build of a positive length uses exactly
/// `len / chunk_size` descriptors, rounded up; every fragment is exactly
/// `chunk_size` bytes except the last, which is the remainder
/// `len - chunk_size * (count - 1)`.
pub proof fn lemma_chunk_count(len: int, chunk_size: int)
    requires
        1 <= chunk_size <= CHUNK_SIZE,
        1 <= len,
    ensures
        descriptor_count(len, chunk_size, false) == div_ceil_spec(len, chunk_size),
        forall|i: int|
            0 <= i < descriptor_count(len, chunk_size, false) - 1 ==> fragment_size(
                len,
                chunk_size,
                false,
                i,
            ) == chunk_size,
        fragment_size(len, chunk_size, false, descriptor_count(len, chunk_size, false) - 1) == len
            - (descriptor_count(len, chunk_size, false) - 1) * chunk_size,
{
    let n = descriptor_count(len, chunk_size, false);
    lemma_ceil_bounds(len, chunk_size);
    assert forall|i: int| 0 <= i < n - 1 implies fragment_size(len, chunk_size, false, i)
        == chunk_size by {
        lemma_fill_step(len, chunk_size, n, i);
    }
    lemma_fill_step(len, chunk_size, n, n - 1);
}

/// Circular minimum law: a circular build whose length fits in two chunks
/// is split into exactly three fragments, except for the lengths 4, 5 and
/// 8, whose near-equal split already covers the buffer with two fragments.
pub proof fn lemma_circular_minimum(len: int, chunk_size: int)
    requires
        1 <= chunk_size <= CHUNK_SIZE,
        4 <= len,
        len <= 2 * chunk_size,
        len != 4,
        len != 5,
        len != 8,
    ensures
        descriptor_count(len, chunk_size, true) == 3,
        fragments_total(len, chunk_size, true, 3) == len,
{
    let m = max_chunk_size_spec(len, chunk_size, true);
    let n = descriptor_count(len, chunk_size, true);
    lemma_fundamental_div_mod(len, 3);
    lemma_mod_bound(len, 3);
    let q = len / 3;
    let r = len % 3;
    assert(m == q + r);
    assert(2 <= q) by (nonlinear_arith)
        requires
            len == 3 * q + r,
            0 <= r < 3,
            4 <= len,
            len != 4,
            len != 5,
    ;
    assert(r < q) by (nonlinear_arith)
        requires
            len == 3 * q + r,
            0 <= r < 3,
            2 <= q,
            len != 8,
    ;
    assert(2 * m < len && len <= 3 * m) by (nonlinear_arith)
        requires
            len == 3 * q + r,
            m == q + r,
            0 <= r < q,
    ;
    lemma_small_circular_split(len, chunk_size);
    lemma_ceil_bounds(len, m);
    assert(n == 3) by (nonlinear_arith)
        requires
            n == div_ceil_spec(len, m),
            len <= n * m,
            (n - 1) * m < len,
            2 * m < len,
            len <= 3 * m,
            1 <= m,
    ;
    lemma_fragments_cover(len, chunk_size, true, 3);
}

/// Ownership law: after a build, every filled descriptor is owned by the
/// DMA engine.
pub proof fn lemma_build_ownership(
    c: DescriptorChain,
    circular: bool,
    is_tx: bool,
    data: int,
    len: int,
)
    requires
        built(c, circular, is_tx, data, len),
    ensures
        forall|i: int|
            0 <= i < descriptor_count(len, c.chunk_size as int, circular)
                ==> #[trigger] c.descriptors[i].spec_owner() == Owner::Dma,
{
    assert forall|i: int|
        0 <= i < descriptor_count(len, c.chunk_size as int, circular) implies #[trigger] c
        .descriptors[i].spec_owner() == Owner::Dma by {
        assert(filled_descriptor(c, circular, is_tx, data, len, i));
    }
}

/// Receive preload law: after a receive build, every filled descriptor's
/// `length` is zero; the hardware records the received byte count there.
pub proof fn lemma_rx_length_preload(c: DescriptorChain, circular: bool, data: int, len: int)
    requires
        built(c, circular, false, data, len),
    ensures
        forall|i: int|
            0 <= i < descriptor_count(len, c.chunk_size as int, circular)
                ==> #[trigger] c.descriptors[i].spec_len() == 0,
{
    assert forall|i: int|
        0 <= i < descriptor_count(len, c.chunk_size as int, circular) implies #[trigger] c
        .descriptors[i].spec_len() == 0 by {
        assert(filled_descriptor(c, circular, false, data, len, i));
    }
}

/// Transmit preload law: after a transmit build, every filled descriptor's
/// `length` equals its `size`; the hardware transmits that many bytes.
pub proof fn lemma_tx_length_preload(c: DescriptorChain, circular: bool, data: int, len: int)
    requires
        built(c, circular, true, data, len),
    ensures
        forall|i: int|
            0 <= i < descriptor_count(len, c.chunk_size as int, circular)
                ==> #[trigger] c.descriptors[i].spec_len() == c.descriptors[i].spec_size(),
{
    assert forall|i: int|
        0 <= i < descriptor_count(len, c.chunk_size as int, circular) implies #[trigger] c
        .descriptors[i].spec_len() == c.descriptors[i].spec_size() by {
        assert(filled_descriptor(c, circular, true, data, len, i));
    }
}

/// End-of-frame law: after a transmit build, `suc_eof` is set on every
/// filled descriptor if and only if the chain is circular; on a linear
/// chain it is set exactly on the final descriptor.
pub proof fn lemma_tx_eof_flag(c: DescriptorChain, circular: bool, data: int, len: int)
    requires
        built(c, circular, true, data, len),
    ensures
        forall|i: int|
            0 <= i < descriptor_count(len, c.chunk_size as int, circular)
                ==> #[trigger] c.descriptors[i].spec_suc_eof() == (circular || i
                == descriptor_count(len, c.chunk_size as int, circular) - 1),
{
    assert forall|i: int|
        0 <= i < descriptor_count(len, c.chunk_size as int, circular) implies #[trigger] c
        .descriptors[i].spec_suc_eof() == (circular || i == descriptor_count(
        len,
        c.chunk_size as int,
        circular,
    ) - 1) by {
        assert(filled_descriptor(c, circular, true, data, len, i));
    }
}

/// Every accepted build has at least one fragment, of positive capacity.
pub proof fn lemma_count_bounds(len: int, chunk_size: int, circular: bool)
    requires
        0 <= len,
        1 <= chunk_size,
        circular ==> 4 <= len,
    ensures
        1 <= max_chunk_size_spec(len, chunk_size, circular),
        1 <= descriptor_count(len, chunk_size, circular),
{
    let m = max_chunk_size_spec(len, chunk_size, circular);
    if circular && len <= 2 * chunk_size {
        assert(len / 3 >= 1 && len % 3 >= 0) by (nonlinear_arith)
            requires
                3 <= len,
        ;
    }
    if len != 0 {
        lemma_ceil_bounds(len, m);
    }
}

/// The descriptor the walk from the head reaches after `k` link follows,
/// reading each `next` word. An address that is not a descriptor boundary
/// of the chain maps to link 0; the law below shows that never happens on a
/// built chain before the terminal link.
pub open spec fn nth_link(c: DescriptorChain, k: int) -> int
    decreases k,
{
    if k <= 0 {
        c.base_address as int
    } else {
        let prev = nth_link(c, k - 1);
        c.descriptors[(prev - c.base_address) / (DESCRIPTOR_BYTES as int)].next as int
    }
}

/// Linkage law: following `next` pointers from the head visits every
/// filled descriptor exactly once, in table order; the terminal
/// descriptor's `next` is the head for a circular chain and null for a
/// linear one.
pub proof fn lemma_linkage(c: DescriptorChain, circular: bool, is_tx: bool, data: int, len: int)
    requires
        built(c, circular, is_tx, data, len),
        c.wf(),
        0 <= len,
        circular ==> 4 <= len,
    ensures
        forall|k: int|
            0 <= k < descriptor_count(len, c.chunk_size as int, circular) ==> #[trigger] nth_link(
                c,
                k,
            ) == c.desc_addr(k),
        nth_link(c, descriptor_count(len, c.chunk_size as int, circular)) == if circular {
            c.base_address as int
        } else {
            0
        },
{
    let n = descriptor_count(len, c.chunk_size as int, circular);
    lemma_count_bounds(len, c.chunk_size as int, circular);
    assert forall|k: int| 0 <= k < n implies #[trigger] nth_link(c, k) == c.desc_addr(k) by {
        lemma_nth_link_step(c, circular, is_tx, data, len, k);
    }
    lemma_nth_link_step(c, circular, is_tx, data, len, n);
}

/// Induction step for the linkage law.
proof fn lemma_nth_link_step(
    c: DescriptorChain,
    circular: bool,
    is_tx: bool,
    data: int,
    len: int,
    k: int,
)
    requires
        built(c, circular, is_tx, data, len),
        c.wf(),
        0 <= len,
        circular ==> 4 <= len,
        0 <= k <= descriptor_count(len, c.chunk_size as int, circular),
    ensures
        k < descriptor_count(len, c.chunk_size as int, circular) ==> nth_link(c, k) == c.desc_addr(
            k,
        ),
        k == descriptor_count(len, c.chunk_size as int, circular) ==> nth_link(c, k) == if circular {
            c.base_address as int
        } else {
            0
        },
    decreases k,
{
    let n = descriptor_count(len, c.chunk_size as int, circular);
    lemma_count_bounds(len, c.chunk_size as int, circular);
    if k == 0 {
    } else {
        lemma_nth_link_step(c, circular, is_tx, data, len, k - 1);
        let prev = nth_link(c, k - 1);
        assert(prev == c.base_address + DESCRIPTOR_BYTES * (k - 1));
        assert((prev - c.base_address) / (DESCRIPTOR_BYTES as int) == k - 1) by (nonlinear_arith)
            requires
                prev - c.base_address == DESCRIPTOR_BYTES * (k - 1),
                DESCRIPTOR_BYTES == 12,
        ;
        assert(filled_descriptor(c, circular, is_tx, data, len, k - 1));
    }
}

/// Memory validation law: whenever any of the four boundary addresses of a
/// transfer lies outside DMA-reachable RAM, both builders report
/// `UnsupportedMemoryRegion` (and, by the builders' contracts, leave the
/// table untouched).
pub proof fn lemma_memory_validation(c: DescriptorChain, circular: bool, data: int, len: int)
    requires
        !addresses_ok(c, data, len),
    ensures
        tx_prepare_error(c, circular, data, len) == Some(DmaError::UnsupportedMemoryRegion),
        rx_prepare_error(c, circular, data, len) == Some(DmaError::UnsupportedMemoryRegion),
{
}

/// The first `n` descriptors of the table form a cycle: each links to the
/// next, and descriptor `n - 1` links back to the head. This is what a
/// circular build leaves behind; the circular state machines run over such
/// rings.
pub open spec fn is_ring(c: DescriptorChain, n: int) -> bool {
    &&& 1 <= n <= c.descriptors.len()
    &&& forall|i: int| 0 <= i < n - 1 ==> #[trigger] c.descriptors[i].next == c.desc_addr(i + 1)
    &&& c.descriptors[n - 1].next == c.base_address
}

/// Whether some prefix of the table forms a ring.
pub open spec fn has_ring(c: DescriptorChain) -> bool {
    exists|n: int| is_ring(c, n)
}

/// The number of descriptors in the ring. At most one prefix length can
/// close the cycle, so this is well defined on any chain with a ring.
pub open spec fn ring_len(c: DescriptorChain) -> int {
    choose|n: int| is_ring(c, n)
}

/// Ring lengths are unique: `ring_len` recovers the witness.
pub proof fn lemma_ring_len(c: DescriptorChain, n: int)
    requires
        is_ring(c, n),
        1 <= c.base_address,
    ensures
        ring_len(c) == n,
        is_ring(c, ring_len(c)),
{
    let n2 = ring_len(c);
    assert(is_ring(c, n2));
    if n2 < n {
        assert(c.descriptors[n2 - 1].next == c.desc_addr(n2));
    } else if n < n2 {
        assert(c.descriptors[n - 1].next == c.desc_addr(n));
    }
}

/// A successful circular build over the whole table is a ring over the
/// whole table.
pub proof fn lemma_built_is_ring(c: DescriptorChain, is_tx: bool, data: int, len: int)
    requires
        c.wf(),
        built(c, true, is_tx, data, len),
        descriptor_count(len, c.chunk_size as int, true) == c.descriptors.len(),
    ensures
        is_ring(c, c.descriptors.len() as int),
        ring_len(c) == c.descriptors.len(),
{
    let n = c.descriptors.len() as int;
    assert forall|i: int| 0 <= i < n - 1 implies #[trigger] c.descriptors[i].next == c.desc_addr(
        i + 1,
    ) by {
        assert(filled_descriptor(c, true, is_tx, data, len, i));
    }
    assert(filled_descriptor(c, true, is_tx, data, len, n - 1));
    assert(is_ring(c, n));
    lemma_ring_len(c, n);
}

/// Whether `a` is the address of one of the ring's descriptors.
pub open spec fn addr_in_ring(c: DescriptorChain, a: int) -> bool {
    &&& c.base_address <= a < c.base_address + DESCRIPTOR_BYTES * ring_len(c)
    &&& (a - c.base_address) % (DESCRIPTOR_BYTES as int) == 0
}

/// The table index of the descriptor at address `a`.
pub open spec fn ring_index(c: DescriptorChain, a: int) -> int {
    (a - c.base_address) / (DESCRIPTOR_BYTES as int)
}

/// Addresses and ring indices correspond one to one.
pub proof fn lemma_ring_index(c: DescriptorChain, a: int)
    requires
        addr_in_ring(c, a),
    ensures
        0 <= ring_index(c, a) < ring_len(c),
        c.desc_addr(ring_index(c, a)) == a,
{
    let d = a - c.base_address;
    let n = ring_len(c);
    lemma_fundamental_div_mod(d, DESCRIPTOR_BYTES as int);
    assert(0 <= d / 12 && d == 12 * (d / 12) && d / 12 < n) by (nonlinear_arith)
        requires
            0 <= d,
            d < 12 * n,
            d % 12 == 0,
            d == 12 * (d / 12) + d % 12,
    ;
}

/// The address of ring descriptor `i` is in the ring, and indexes back to
/// `i`.
pub proof fn lemma_ring_addr(c: DescriptorChain, i: int)
    requires
        0 <= i < ring_len(c),
    ensures
        addr_in_ring(c, c.desc_addr(i)),
        ring_index(c, c.desc_addr(i)) == i,
{
    let n = ring_len(c);
    assert(12 * i + 12 <= 12 * n && (12 * i) % 12 == 0 && (12 * i) / 12 == i) by (nonlinear_arith)
        requires
            0 <= i,
            i < n,
    ;
    lemma_fundamental_div_mod(c.desc_addr(i) - c.base_address, DESCRIPTOR_BYTES as int);
}

/// The total `length` of ring descriptors `i` up to (excluding) `j`.
pub open spec fn ring_range_len(c: DescriptorChain, i: int, j: int) -> int
    decreases j - i,
{
    if j <= i {
        0
    } else {
        ring_range_len(c, i, j - 1) + c.descriptors[j - 1].spec_len()
    }
}

/// Range sums of descriptor lengths are nonnegative.
pub proof fn lemma_range_nonneg(c: DescriptorChain, i: int, j: int)
    ensures
        0 <= ring_range_len(c, i, j),
    decreases j - i,
{
    if j > i {
        lemma_range_nonneg(c, i, j - 1);
    }
}

/// Range sums of descriptor lengths concatenate.
pub proof fn lemma_range_split(c: DescriptorChain, i: int, j: int, k: int)
    requires
        i <= j <= k,
    ensures
        ring_range_len(c, i, k) == ring_range_len(c, i, j) + ring_range_len(c, j, k),
    decreases k - j,
{
    if j < k {
        lemma_range_split(c, i, j, k - 1);
    }
}

/// One descriptor's length never exceeds a range sum that includes it.
pub proof fn lemma_single_le_range(c: DescriptorChain, i: int, lo: int, hi: int)
    requires
        lo <= i < hi,
    ensures
        c.descriptors[i].spec_len() <= ring_range_len(c, lo, hi),
{
    lemma_range_split(c, lo, i, hi);
    lemma_range_split(c, i, i + 1, hi);
    lemma_range_nonneg(c, lo, i);
    lemma_range_nonneg(c, i + 1, hi);
    assert(ring_range_len(c, i, i + 1) == ring_range_len(c, i, i) + c.descriptors[i].spec_len());
}

/// On a chain built for a transfer, the ring's total `length` preload
/// equals the whole table's, and for a transmit build it equals the data
/// length itself.
pub proof fn lemma_built_ring_total(c: DescriptorChain, is_tx: bool, data: int, len: int)
    requires
        c.wf(),
        built(c, true, is_tx, data, len),
        0 <= len,
        4 <= len,
        descriptor_count(len, c.chunk_size as int, true) == c.descriptors.len(),
    ensures
        is_tx ==> ring_range_len(c, 0, c.descriptors.len() as int) == len,
        !is_tx ==> ring_range_len(c, 0, c.descriptors.len() as int) == 0,
{
    let n = c.descriptors.len() as int;
    lemma_count_bounds(len, c.chunk_size as int, true);
    lemma_range_total_matches_fragments(c, is_tx, data, len, n);
    lemma_fragments_cover(len, c.chunk_size as int, true, n);
}

/// On a built chain, partial sums of descriptor lengths match partial
/// fragment totals (transmit), or vanish (receive).
proof fn lemma_range_total_matches_fragments(
    c: DescriptorChain,
    is_tx: bool,
    data: int,
    len: int,
    k: int,
)
    requires
        built(c, true, is_tx, data, len),
        0 <= k <= descriptor_count(len, c.chunk_size as int, true),
    ensures
        is_tx ==> ring_range_len(c, 0, k) == fragments_total(len, c.chunk_size as int, true, k),
        !is_tx ==> ring_range_len(c, 0, k) == 0,
    decreases k,
{
    if k > 0 {
        lemma_range_total_matches_fragments(c, is_tx, data, len, k - 1);
        assert(filled_descriptor(c, true, is_tx, data, len, k - 1));
    }
}

/// Arithmetic facts for iteration `i` of the fill loop: fragment `i` starts
/// inside the buffer, a non-final fragment is full and does not reach the
/// end, and the final fragment reaches exactly the end.
proof fn lemma_fill_step(len: int, m: int, n: int, i: int)
    requires
        1 <= m,
        0 <= len,
        n == if len == 0 {
            1int
        } else {
            div_ceil_spec(len, m)
        },
        0 <= i < n,
    ensures
        0 <= i * m <= len,
        (i + 1) * m == i * m + m,
        i < n - 1 ==> i * m + m < len,
        i == n - 1 ==> len <= i * m + m,
{
    assert((i + 1) * m == i * m + m) by (nonlinear_arith);
    if len == 0 {
        assert(i == 0);
        assert(i * m == 0) by (nonlinear_arith)
            requires
                i == 0,
        ;
    } else {
        lemma_ceil_bounds(len, m);
        assert(i * m <= (n - 1) * m && (i + 1) * m <= (n - 1) * m + m) by (nonlinear_arith)
            requires
                0 <= i <= n - 1,
                1 <= m,
        ;
        if i < n - 1 {
            assert((i + 1) * m <= (n - 1) * m) by (nonlinear_arith)
                requires
                    i + 1 <= n - 1,
                    1 <= m,
            ;
        } else {
            assert(i * m + m == n * m) by (nonlinear_arith)
                requires
                    i == n - 1,
            ;
            assert(len <= n * m);
        }
    }
}

impl DescriptorChain {
    /// Fill the table for one transfer, after all checks have passed.
    fn fill_descriptors(&mut self, circular: bool, is_tx: bool, data: usize, len: usize)
        requires
            old(self).wf(),
            data + len <= usize::MAX,
            circular ==> 3 <= old(self).descriptors.len(),
            circular ==> 4 <= len,
            !(circular && len <= 2 * old(self).chunk_size) ==> div_ceil_spec(
                len as int,
                old(self).chunk_size as int,
            ) <= old(self).descriptors.len(),
        ensures
            final(self).wf(),
            final(self).base_address == old(self).base_address,
            final(self).chunk_size == old(self).chunk_size,
            final(self).descriptors.len() == old(self).descriptors.len(),
            built(*final(self), circular, is_tx, data as int, len as int),
    {
        proof {
            lemma_build_geometry(*old(self), circular, len as int);
        }
        let max_chunk_size: usize = if !circular || len > self.chunk_size * 2 {
            self.chunk_size
        } else {
            len / 3 + len % 3
        };
        let n: usize = if len == 0 {
            1
        } else {
            div_ceil(len, max_chunk_size)
        };
        let ghost m_int = max_chunk_size as int;
        let ghost n_int = n as int;
        let total: usize = self.descriptors.len();

        let mut k: usize = 0;
        while k < total
            invariant
                k <= total,
                total == self.descriptors.len(),
                self.base_address == old(self).base_address,
                self.chunk_size == old(self).chunk_size,
                forall|j: int| 0 <= j < k ==> self.descriptors[j] == DmaDescriptor::spec_empty(),
            decreases total - k,
        {
            let e = DmaDescriptor::empty();
            self.descriptors.set(k, e);
            k += 1;
        }

        let mut processed: usize = 0;
        let mut descr: usize = 0;
        while descr < n
            invariant
                self.wf(),
                descr <= n,
                n <= total,
                total == self.descriptors.len(),
                self.base_address == old(self).base_address,
                self.chunk_size == old(self).chunk_size,
                data + len <= usize::MAX,
                m_int == max_chunk_size_spec(len as int, self.chunk_size as int, circular),
                m_int == max_chunk_size as int,
                1 <= max_chunk_size <= CHUNK_SIZE,
                n_int == n as int,
                n_int == descriptor_count(len as int, self.chunk_size as int, circular),
                processed as int == if descr < n {
                    descr * m_int
                } else {
                    len as int
                },
                forall|i: int|
                    0 <= i < descr ==> filled_descriptor(
                        *self,
                        circular,
                        is_tx,
                        data as int,
                        len as int,
                        i,
                    ),
                forall|i: int|
                    descr <= i < total ==> self.descriptors[i] == DmaDescriptor::spec_empty(),
            decreases n - descr,
        {
            proof {
                lemma_fill_step(len as int, m_int, n_int, descr as int);
            }
            let chunk: usize = if len - processed < max_chunk_size {
                len - processed
            } else {
                max_chunk_size
            };
            let last: bool = processed + chunk >= len;
            assert(last == (descr + 1 == n));
            let next: usize = if last {
                if circular {
                    self.base_address
                } else {
                    0
                }
            } else {
                self.base_address + DESCRIPTOR_BYTES * (descr + 1)
            };

            let mut dw0 = self.descriptors[descr];
            dw0.set_suc_eof(
                if is_tx {
                    circular || last
                } else {
                    false
                },
            );
            dw0.set_owner(Owner::Dma);
            dw0.set_size(chunk);
            dw0.set_length(
                if is_tx {
                    chunk
                } else {
                    0
                },
            );
            dw0.buffer = data + processed;
            dw0.next = next;
            let ghost prev = *self;
            self.descriptors.set(descr, dw0);

            assert(filled_descriptor(*self, circular, is_tx, data as int, len as int, descr as int));
            proof {
                assert forall|i: int|
                    0 <= i < descr as int implies filled_descriptor(
                    *self,
                    circular,
                    is_tx,
                    data as int,
                    len as int,
                    i,
                ) by {
                    assert(filled_descriptor(prev, circular, is_tx, data as int, len as int, i));
                    assert(self.descriptors[i] == prev.descriptors[i]);
                }
            }

            processed = processed + chunk;
            descr += 1;
        }
    }

    /// Prepare the chain for a receive transfer of `len` bytes arriving at
    /// address `data`. On success every filled descriptor is owned by the
    /// DMA engine, carries a zero `length` (hardware records the received
    /// count), and never marks end-of-frame; on failure the table is left
    /// untouched.
    pub fn fill_for_rx(&mut self, circular: bool, data: usize, len: usize) -> (r: Result<
        (),
        DmaError,
    >)
        requires
            old(self).wf(),
            data + len <= usize::MAX,
            circular ==> 3 <= old(self).descriptors.len(),
        ensures
            final(self).wf(),
            final(self).base_address == old(self).base_address,
            final(self).chunk_size == old(self).chunk_size,
            final(self).descriptors.len() == old(self).descriptors.len(),
            match r {
                Ok(_) => rx_prepare_error(*old(self), circular, data as int, len as int) is None
                    && built(*final(self), circular, false, data as int, len as int),
                Err(e) => rx_prepare_error(*old(self), circular, data as int, len as int)
                    == Some(e) && *final(self) == *old(self),
            },
    {
        if !(is_valid_ram_address(self.first()) && is_valid_ram_address(self.last())
            && is_valid_ram_address(data) && is_valid_ram_address(data + len)) {
            return Err(DmaError::UnsupportedMemoryRegion);
        }
        if self.descriptors.len() < div_ceil(len, self.chunk_size) {
            return Err(DmaError::OutOfDescriptors);
        }
        if circular && len <= 3 {
            return Err(DmaError::BufferTooSmall);
        }
        self.fill_descriptors(circular, false, data, len);
        Ok(())
    }

    /// Prepare the chain for a transmit transfer of `len` bytes taken from
    /// address `data`. On success every filled descriptor is owned by the
    /// DMA engine and preloads its `length` with the fragment size;
    /// end-of-frame is marked on every fragment of a circular chain and on
    /// the final fragment of a linear one. On failure the table is left
    /// untouched.
    pub fn fill_for_tx(&mut self, circular: bool, data: usize, len: usize) -> (r: Result<
        (),
        DmaError,
    >)
        requires
            old(self).wf(),
            data + len <= usize::MAX,
            circular ==> 3 <= old(self).descriptors.len(),
        ensures
            final(self).wf(),
            final(self).base_address == old(self).base_address,
            final(self).chunk_size == old(self).chunk_size,
            final(self).descriptors.len() == old(self).descriptors.len(),
            match r {
                Ok(_) => tx_prepare_error(*old(self), circular, data as int, len as int) is None
                    && built(*final(self), circular, true, data as int, len as int),
                Err(e) => tx_prepare_error(*old(self), circular, data as int, len as int)
                    == Some(e) && *final(self) == *old(self),
            },
    {
        if !(is_valid_ram_address(self.first()) && is_valid_ram_address(self.last())
            && is_valid_ram_address(data) && is_valid_ram_address(data + len)) {
            return Err(DmaError::UnsupportedMemoryRegion);
        }
        if circular && len <= 3 {
            return Err(DmaError::BufferTooSmall);
        }
        if self.descriptors.len() < div_ceil(len, self.chunk_size) {
            return Err(DmaError::OutOfDescriptors);
        }
        self.fill_descriptors(circular, true, data, len);
        Ok(())
    }
}

/// `len / chunk`, rounded up, as executable code.
fn div_ceil(len: usize, chunk: usize) -> (r: usize)
    requires
        1 <= chunk,
    ensures
        r == div_ceil_spec(len as int, chunk as int),
{
    proof {
        lemma_div_ceil_form(len as int, chunk as int);
    }
    if len % chunk == 0 {
        len / chunk
    } else {
        proof {
            assert((len as int) % 1int == 0) by (nonlinear_arith);
            assert(2 <= chunk && 0 <= len ==> len / chunk <= len / 2) by (nonlinear_arith);
        }
        len / chunk + 1
    }
}

/// The two ways of writing a rounded-up division agree.
proof fn lemma_div_ceil_form(len: int, chunk: int)
    requires
        0 <= len,
        1 <= chunk,
    ensures
        div_ceil_spec(len, chunk) == if len % chunk == 0 {
            len / chunk
        } else {
            len / chunk + 1
        },
{
    lemma_fundamental_div_mod(len, chunk);
    lemma_fundamental_div_mod(len + chunk - 1, chunk);
    let q = len / chunk;
    let r = len % chunk;
    assert(0 <= r < chunk) by (nonlinear_arith)
        requires
            1 <= chunk,
            0 <= len,
            r == len % chunk,
    ;
    if r == 0 {
        assert((len + chunk - 1) / chunk == q) by (nonlinear_arith)
            requires
                1 <= chunk,
                len == chunk * q + r,
                r == 0,
                0 <= len,
        ;
    } else {
        assert((len + chunk - 1) / chunk == q + 1) by (nonlinear_arith)
            requires
                1 <= chunk,
                len == chunk * q + r,
                0 < r < chunk,
        ;
    }
}

} // verus!
