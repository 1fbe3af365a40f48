//! The transmit circular state machine.
//!
//! A circular transmit transfer streams continuously over a ring of
//! descriptors. The hardware consumes descriptors and latches an
//! end-of-frame interrupt per descriptor; the driver reconciles that
//! progress with its own write cursor here. The two facts the hardware
//! reports — whether the end-of-frame latch is set, and the address of the
//! last outbound descriptor it handled — enter as plain values, so the
//! reconciliation is verified for every report the hardware could make.

use vstd::prelude::*;
use crate::chain::{
    addr_in_ring, has_ring, is_ring, lemma_range_nonneg, lemma_range_split, lemma_ring_addr,
    lemma_ring_index, lemma_ring_len, lemma_single_le_range, ring_index, ring_len, ring_range_len,
    DescriptorChain, DESCRIPTOR_BYTES,
};
use crate::DmaError;

verus! {

/// Producer-side bookkeeping for a circular transmit transfer.
#[derive(Debug, Clone, Copy, PartialEq, Eq, Structural)]
pub struct TxCircularState {
    /// Byte offset of the write cursor from the buffer start, always less
    /// than `buffer_len`.
    pub write_offset: usize,
    /// Address of the descriptor the producer fills next.
    pub write_descr_ptr: usize,
    /// Bytes that may be pushed without overwriting unconsumed data.
    pub available: usize,
    /// The hardware's last completed descriptor as of the previous poll.
    pub last_seen_handled_descriptor_ptr: usize,
    /// Address of the underlying data buffer.
    pub buffer_start: usize,
    /// Total byte capacity of the ring.
    pub buffer_len: usize,
    /// Address of the ring's head descriptor.
    pub first_desc_ptr: usize,
}

/// The bytes of ring descriptors `ls` up to `ai` in walk order: straight
/// ahead if the hardware pointer is at or past the last-seen pointer, and
/// around the ring's end otherwise.
pub open spec fn tx_walk_sum(c: DescriptorChain, ls: int, ai: int) -> int {
    if ai >= ls {
        ring_range_len(c, ls, ai)
    } else {
        ring_range_len(c, ls, ring_len(c)) + ring_range_len(c, 0, ai)
    }
}

/// A hardware walk never reclaims more than one trip around the ring.
pub proof fn lemma_walk_sum_bounds(c: DescriptorChain, ls: int, ai: int)
    requires
        0 <= ls < ring_len(c),
        0 <= ai < ring_len(c),
    ensures
        0 <= tx_walk_sum(c, ls, ai) <= ring_range_len(c, 0, ring_len(c)),
{
    let n = ring_len(c);
    lemma_range_nonneg(c, ls, ai);
    lemma_range_nonneg(c, 0, ls);
    lemma_range_nonneg(c, ls, n);
    lemma_range_nonneg(c, 0, ai);
    lemma_range_nonneg(c, ai, ls);
    lemma_range_nonneg(c, ai, n);
    if ai >= ls {
        lemma_range_split(c, 0, ls, n);
        lemma_range_split(c, ls, ai, n);
    } else {
        lemma_range_split(c, 0, ai, ls);
        lemma_range_split(c, 0, ls, n);
    }
}

impl TxCircularState {
    /// How this state relates to the chain it was built from: the chain is
    /// a well-formed ring, both descriptor cursors point at ring members,
    /// the write cursor is inside the buffer, and `buffer_len` is the
    /// ring's total `length` preload.
    pub open spec fn wf_for(self, c: DescriptorChain) -> bool {
        &&& c.wf()
        &&& has_ring(c)
        &&& self.first_desc_ptr == c.base_address
        &&& addr_in_ring(c, self.write_descr_ptr as int)
        &&& addr_in_ring(c, self.last_seen_handled_descriptor_ptr as int)
        &&& self.buffer_len == ring_range_len(c, 0, ring_len(c))
        &&& self.write_offset < self.buffer_len
    }

    /// Fresh producer state over a freshly built circular chain: cursors
    /// at the head, nothing reclaimable yet, and the capacity taken from
    /// the preloaded descriptor lengths.
    pub fn new(chain: &mut DescriptorChain) -> (r: Self)
        requires
            old(chain).wf(),
            ring_range_len(*old(chain), 0, old(chain).descriptors.len() as int) <= usize::MAX,
        ensures
            *final(chain) == *old(chain),
            r.write_offset == 0,
            r.available == 0,
            r.write_descr_ptr == old(chain).base_address,
            r.last_seen_handled_descriptor_ptr == old(chain).base_address,
            r.first_desc_ptr == old(chain).base_address,
            r.buffer_start == old(chain).descriptors[0].buffer,
            r.buffer_len == ring_range_len(*old(chain), 0, old(chain).descriptors.len() as int),
            is_ring(*old(chain), old(chain).descriptors.len() as int) && r.buffer_len >= 1
                ==> r.wf_for(*old(chain)),
    {
        let first = chain.first_mut();
        let buffer_start = chain.descriptors[0].buffer;

        let total: usize = chain.descriptors.len();
        let mut buffer_len: usize = 0;
        let mut k: usize = 0;
        while k < total
            invariant
                k <= total,
                total == chain.descriptors.len(),
                chain.wf(),
                buffer_len as int == ring_range_len(*chain, 0, k as int),
                ring_range_len(*chain, 0, total as int) <= usize::MAX,
            decreases total - k,
        {
            proof {
                assert(ring_range_len(*chain, 0, k as int + 1) == ring_range_len(
                    *chain,
                    0,
                    k as int,
                ) + chain.descriptors[k as int].spec_len());
                lemma_range_split(*chain, 0, k as int + 1, total as int);
                lemma_range_nonneg(*chain, k as int + 1, total as int);
                lemma_range_nonneg(*chain, 0, k as int);
            }
            let l = chain.descriptors[k].len();
            buffer_len = buffer_len + l;
            k += 1;
        }

        let r = TxCircularState {
            write_offset: 0,
            write_descr_ptr: first,
            available: 0,
            last_seen_handled_descriptor_ptr: first,
            buffer_start,
            buffer_len,
            first_desc_ptr: first,
        };
        proof {
            if is_ring(*chain, chain.descriptors.len() as int) && r.buffer_len >= 1 {
                lemma_ring_len(*chain, chain.descriptors.len() as int);
                lemma_ring_addr(*chain, 0);
            }
        }
        r
    }

    /// Reconcile with hardware progress. `descriptors_handled` is the
    /// transmit end-of-frame latch (the caller reads and clears it), and
    /// `last_out_dscr_address` is the controller's last completed outbound
    /// descriptor, which must be a member of the ring.
    ///
    /// When the latch is clear the state is untouched. Otherwise the walk
    /// from the last-seen descriptor to the reported one reclaims those
    /// descriptors' bytes, and if that makes the whole buffer reclaimable
    /// — the producer has been lapped — one descriptor's worth is consumed
    /// back out and the write cursor advanced past it, so pushed data is
    /// silently dropped rather than torn.
    pub fn update(
        &mut self,
        chain: &DescriptorChain,
        descriptors_handled: bool,
        last_out_dscr_address: usize,
    )
        requires
            old(self).wf_for(*chain),
            1 <= old(self).buffer_len,
            old(self).available + old(self).buffer_len <= usize::MAX,
            descriptors_handled ==> addr_in_ring(*chain, last_out_dscr_address as int),
        ensures
            final(self).wf_for(*chain),
            final(self).buffer_start == old(self).buffer_start,
            final(self).buffer_len == old(self).buffer_len,
            final(self).first_desc_ptr == old(self).first_desc_ptr,
            !descriptors_handled ==> *final(self) == *old(self),
            descriptors_handled ==> ({
                let n = ring_len(*chain);
                let ls = ring_index(*chain, old(self).last_seen_handled_descriptor_ptr as int);
                let ai = ring_index(*chain, last_out_dscr_address as int);
                let gained = tx_walk_sum(*chain, ls, ai);
                let avail1 = old(self).available + gained;
                let lapped = avail1 >= old(self).buffer_len;
                let wi = ring_index(*chain, old(self).write_descr_ptr as int);
                let seg = chain.descriptors[wi].spec_len();
                &&& final(self).last_seen_handled_descriptor_ptr == last_out_dscr_address
                &&& final(self).available == if lapped {
                    avail1 - seg
                } else {
                    avail1
                }
                &&& final(self).write_offset == if lapped {
                    (old(self).write_offset + seg) % (old(self).buffer_len as int)
                } else {
                    old(self).write_offset as int
                }
                &&& final(self).write_descr_ptr == if lapped {
                    if wi == n - 1 {
                        chain.base_address as int
                    } else {
                        chain.desc_addr(wi + 1)
                    }
                } else {
                    old(self).write_descr_ptr as int
                }
            }),
    {
        if !descriptors_handled {
            return ;
        }
        let descr_address = last_out_dscr_address;
        let ghost n = ring_len(*chain);
        let ghost ls0 = ring_index(*chain, self.last_seen_handled_descriptor_ptr as int);
        let ghost ai = ring_index(*chain, descr_address as int);
        let ghost avail0 = self.available as int;
        proof {
            lemma_ring_index(*chain, self.last_seen_handled_descriptor_ptr as int);
            lemma_ring_index(*chain, descr_address as int);
            lemma_walk_sum_bounds(*chain, ls0, ai);
        }

        let mut ptr = self.last_seen_handled_descriptor_ptr;
        if descr_address >= self.last_seen_handled_descriptor_ptr {
            while ptr < descr_address
                invariant
                    self.wf_for(*chain),
                    ls0 <= ring_index(*chain, ptr as int) <= ai,
                    ai < n,
                    n == ring_len(*chain),
                    ptr as int == chain.desc_addr(ring_index(*chain, ptr as int)),
                    ls0 == ring_index(
                        *chain,
                        self.last_seen_handled_descriptor_ptr as int,
                    ),
                    ai == ring_index(*chain, descr_address as int),
                    descr_address as int == chain.desc_addr(ai),
                    ai >= ls0,
                    self.available as int == avail0 + ring_range_len(
                        *chain,
                        ls0,
                        ring_index(*chain, ptr as int),
                    ),
                    avail0 + self.buffer_len <= usize::MAX,
                    *self == (TxCircularState { available: self.available, ..*old(self) }),
                decreases chain.desc_addr(ai) - ptr,
            {
                let ghost cur = ring_index(*chain, ptr as int);
                proof {
                    assert(cur < ai) by (nonlinear_arith)
                        requires
                            ptr as int == chain.base_address + 12 * cur,
                            chain.desc_addr(ai) == chain.base_address + 12 * ai,
                            (ptr as int) < chain.desc_addr(ai),
                    ;
                    lemma_range_split(*chain, ls0, cur, ai);
                    lemma_range_split(*chain, cur, cur + 1, ai);
                    lemma_range_nonneg(*chain, cur + 1, ai);
                    lemma_range_nonneg(*chain, ls0, cur);
                    assert(ring_range_len(*chain, cur, cur + 1) == ring_range_len(*chain, cur, cur)
                        + chain.descriptors[cur].spec_len());
                    lemma_walk_sum_bounds(*chain, ls0, ai);
                }
                let idx = (ptr - self.first_desc_ptr) / DESCRIPTOR_BYTES;
                proof {
                    assert((12 * cur) / 12 == cur) by (nonlinear_arith);
                }
                let dw0 = chain.descriptors[idx];
                self.available = self.available + dw0.len();
                ptr = ptr + DESCRIPTOR_BYTES;
                proof {
                    lemma_ring_addr(*chain, cur + 1);
                }
            }
            proof {
                assert(ring_index(*chain, ptr as int) == ai) by (nonlinear_arith)
                    requires
                        ptr as int == chain.base_address + 12 * ring_index(*chain, ptr as int),
                        chain.desc_addr(ai) == chain.base_address + 12 * ai,
                        ptr as int >= chain.desc_addr(ai),
                        ring_index(*chain, ptr as int) <= ai,
                ;
            }
        } else {
            // The hardware wrapped past the ring's end: walk to the tail,
            // take its bytes too, then continue from the head up to the
            // reported descriptor.
            let mut idx = (ptr - self.first_desc_ptr) / DESCRIPTOR_BYTES;
            proof {
                assert((12 * ls0) / 12 == ls0) by (nonlinear_arith);
                lemma_walk_sum_bounds(*chain, ls0, ai);
                lemma_ring_len_facts(*chain);
            }
            while chain.descriptors[idx].next != 0 && chain.descriptors[idx].next
                != self.first_desc_ptr
                invariant
                    self.wf_for(*chain),
                    n == ring_len(*chain),
                    is_ring(*chain, n),
                    ls0 <= idx as int <= n - 1,
                    self.available as int == avail0 + ring_range_len(*chain, ls0, idx as int),
                    avail0 + self.buffer_len <= usize::MAX,
                    ls0 == ring_index(
                        *chain,
                        self.last_seen_handled_descriptor_ptr as int,
                    ),
                    0 <= ls0 < n,
                    0 <= ai < n,
                    ai < ls0,
                    *self == (TxCircularState { available: self.available, ..*old(self) }),
                decreases n - idx,
            {
                proof {
                    if idx as int == n - 1 {
                        assert(chain.descriptors[n - 1].next == chain.base_address);
                    }
                    lemma_range_split(*chain, ls0, idx as int, n);
                    lemma_range_split(*chain, idx as int, idx as int + 1, n);
                    lemma_range_nonneg(*chain, idx as int + 1, n);
                    lemma_range_nonneg(*chain, ls0, idx as int);
                    assert(ring_range_len(*chain, idx as int, idx as int + 1) == ring_range_len(
                        *chain,
                        idx as int,
                        idx as int,
                    ) + chain.descriptors[idx as int].spec_len());
                    lemma_range_nonneg(*chain, 0, ai);
                    lemma_range_split(*chain, 0, ls0, n);
                    lemma_range_split(*chain, ls0, idx as int + 1, n);
                    lemma_range_nonneg(*chain, 0, ls0);
                }
                let dw0 = chain.descriptors[idx];
                self.available = self.available + dw0.len();
                idx += 1;
            }
            proof {
                if (idx as int) < n - 1 {
                    assert(chain.descriptors[idx as int].next == chain.desc_addr(idx as int + 1));
                    assert(chain.desc_addr(idx as int + 1) != 0);
                    assert(chain.desc_addr(idx as int + 1) != chain.base_address);
                }
                assert(idx as int == n - 1);
                lemma_range_split(*chain, ls0, n - 1, n);
                assert(ring_range_len(*chain, n - 1, n) == ring_range_len(*chain, n - 1, n - 1)
                    + chain.descriptors[n - 1].spec_len());
                lemma_range_nonneg(*chain, 0, ai);
                lemma_walk_sum_bounds(*chain, ls0, ai);
            }
            // take the tail descriptor's bytes
            let dw0 = chain.descriptors[idx];
            self.available = self.available + dw0.len();

            if chain.descriptors[idx].next == self.first_desc_ptr {
                let mut ptr2 = self.first_desc_ptr;
                proof {
                    lemma_ring_addr(*chain, 0);
                }
                while ptr2 < descr_address
                    invariant
                        self.wf_for(*chain),
                        n == ring_len(*chain),
                        0 <= ring_index(*chain, ptr2 as int) <= ai,
                        0 <= ai < n,
                        0 <= ls0 < n,
                        ptr2 as int == chain.desc_addr(ring_index(*chain, ptr2 as int)),
                        ai == ring_index(*chain, descr_address as int),
                        descr_address as int == chain.desc_addr(ai),
                        self.available as int == avail0 + ring_range_len(*chain, ls0, n)
                            + ring_range_len(*chain, 0, ring_index(*chain, ptr2 as int)),
                        avail0 + self.buffer_len <= usize::MAX,
                        tx_walk_sum(*chain, ls0, ai) == ring_range_len(*chain, ls0, n)
                            + ring_range_len(*chain, 0, ai),
                        *self == (TxCircularState { available: self.available, ..*old(self) }),
                    decreases chain.desc_addr(ai) - ptr2,
                {
                    let ghost cur = ring_index(*chain, ptr2 as int);
                    proof {
                        assert(cur < ai) by (nonlinear_arith)
                            requires
                                ptr2 as int == chain.base_address + 12 * cur,
                                chain.desc_addr(ai) == chain.base_address + 12 * ai,
                                (ptr2 as int) < chain.desc_addr(ai),
                        ;
                        lemma_range_split(*chain, 0, cur, ai);
                        lemma_range_split(*chain, cur, cur + 1, ai);
                        lemma_range_nonneg(*chain, cur + 1, ai);
                        lemma_range_nonneg(*chain, 0, cur);
                        lemma_range_nonneg(*chain, ls0, n);
                        assert(ring_range_len(*chain, cur, cur + 1) == ring_range_len(
                            *chain,
                            cur,
                            cur,
                        ) + chain.descriptors[cur].spec_len());
                        lemma_walk_sum_bounds(*chain, ls0, ai);
                    }
                    let idx2 = (ptr2 - self.first_desc_ptr) / DESCRIPTOR_BYTES;
                    proof {
                        assert((12 * cur) / 12 == cur) by (nonlinear_arith);
                    }
                    let dw2 = chain.descriptors[idx2];
                    self.available = self.available + dw2.len();
                    ptr2 = ptr2 + DESCRIPTOR_BYTES;
                    proof {
                        lemma_ring_addr(*chain, cur + 1);
                    }
                }
                proof {
                    assert(ring_index(*chain, ptr2 as int) == ai) by (nonlinear_arith)
                        requires
                            ptr2 as int == chain.base_address + 12 * ring_index(
                                *chain,
                                ptr2 as int,
                            ),
                            chain.desc_addr(ai) == chain.base_address + 12 * ai,
                            ptr2 as int >= chain.desc_addr(ai),
                            ring_index(*chain, ptr2 as int) <= ai,
                    ;
                }
            }
        }

        if self.available >= self.buffer_len {
            let ghost wi = ring_index(*chain, self.write_descr_ptr as int);
            proof {
                lemma_ring_index(*chain, self.write_descr_ptr as int);
                lemma_single_le_range(*chain, wi, 0, n);
                assert((12 * wi) / 12 == wi) by (nonlinear_arith);
            }
            let widx = (self.write_descr_ptr - self.first_desc_ptr) / DESCRIPTOR_BYTES;
            let dw0 = chain.descriptors[widx];
            let segment_len = dw0.len();
            let next_descriptor = dw0.next;
            self.available = self.available - segment_len;
            let wo = self.write_offset;
            proof {
                if wi as int == n - 1 {
                    assert(chain.descriptors[n - 1].next == chain.base_address);
                } else {
                    assert(chain.descriptors[wi].next == chain.desc_addr(wi + 1));
                }
                lemma_wrap_is_mod(wo as int, segment_len as int, self.buffer_len as int);
            }
            self.write_offset = if segment_len < self.buffer_len - wo {
                wo + segment_len
            } else {
                wo - (self.buffer_len - segment_len)
            };
            self.write_descr_ptr = if next_descriptor == 0 {
                self.first_desc_ptr
            } else {
                next_descriptor
            };
            proof {
                if wi as int == n - 1 {
                    lemma_ring_addr(*chain, 0);
                } else {
                    lemma_ring_addr(*chain, wi + 1);
                }
            }
        }

        self.last_seen_handled_descriptor_ptr = descr_address;
    }
}

/// The smaller of two values.
pub open spec fn spec_min(a: int, b: int) -> int {
    if a < b {
        a
    } else {
        b
    }
}

/// The writable block a push hands out from state `s`: the reclaimable,
/// contiguous bytes from the write cursor to the buffer's end.
pub open spec fn tx_block_len(s: TxCircularState) -> int {
    spec_min(s.available as int, s.buffer_len - s.write_offset)
}

/// Every ring descriptor carries at least one byte. Holds for any chain
/// built from a positive data length, and needed so that walking the ring
/// descriptor by descriptor makes progress.
pub open spec fn ring_lens_positive(c: DescriptorChain) -> bool {
    forall|i: int| 0 <= i < ring_len(c) ==> #[trigger] c.descriptors[i].spec_len() >= 1
}

/// Where the write cursor lands after the producer hands `forward` bytes
/// past the descriptor at ring index `wi`: the cursor always leaves the
/// current descriptor, then keeps moving while more than one descriptor's
/// worth remains.
pub open spec fn advance_index(c: DescriptorChain, wi: int, forward: int) -> int
    decreases forward,
{
    let seg = c.descriptors[wi].spec_len();
    let nxt = if wi == ring_len(c) - 1 {
        0
    } else {
        wi + 1
    };
    if forward <= seg || seg <= 0 {
        nxt
    } else {
        advance_index(c, nxt, forward - seg)
    }
}

/// The advance walk stays inside the ring.
pub proof fn lemma_advance_in_ring(c: DescriptorChain, wi: int, forward: int)
    requires
        0 <= wi < ring_len(c),
    ensures
        0 <= advance_index(c, wi, forward) < ring_len(c),
    decreases forward,
{
    let seg = c.descriptors[wi].spec_len();
    let nxt = if wi == ring_len(c) - 1 {
        0int
    } else {
        wi + 1
    };
    if !(forward <= seg || seg <= 0) {
        lemma_advance_in_ring(c, nxt, forward - seg);
    }
}

/// The ring byte at index `j` after `data` is written circularly starting
/// at offset `wo`.
pub open spec fn pushed_byte(old_ring: Seq<u8>, data: Seq<u8>, wo: int, j: int) -> u8 {
    let l = old_ring.len() as int;
    let d = (j - wo) % l;
    if d < data.len() {
        data[d]
    } else {
        old_ring[j]
    }
}

/// The circular distance from `wo` to `j` inside a buffer of length `l`.
proof fn lemma_wrap_dist(wo: int, l: int, j: int)
    requires
        0 <= wo < l,
        0 <= j < l,
    ensures
        (j - wo) % l == if j >= wo {
            j - wo
        } else {
            j - wo + l
        },
{
    if j >= wo {
        assert((j - wo) % l == j - wo) by (nonlinear_arith)
            requires
                0 <= j - wo < l,
        ;
    } else {
        assert((j - wo) % l == j - wo + l) by (nonlinear_arith)
            requires
                0 < j - wo + l < l,
        ;
    }
}

impl TxCircularState {
    /// Move the write cursor past `written` bytes of descriptors.
    fn advance_write_ptr(&mut self, chain: &DescriptorChain, written: usize)
        requires
            old(self).wf_for(*chain),
            ring_lens_positive(*chain),
        ensures
            *final(self) == (TxCircularState {
                write_descr_ptr: final(self).write_descr_ptr,
                ..*old(self)
            }),
            final(self).write_descr_ptr as int == chain.desc_addr(
                advance_index(
                    *chain,
                    ring_index(*chain, old(self).write_descr_ptr as int),
                    written as int,
                ),
            ),
            final(self).wf_for(*chain),
    {
        let ghost n = ring_len(*chain);
        let ghost target = advance_index(
            *chain,
            ring_index(*chain, self.write_descr_ptr as int),
            written as int,
        );
        proof {
            lemma_ring_len_facts(*chain);
            lemma_ring_index(*chain, self.write_descr_ptr as int);
        }
        let mut forward = written;
        loop
            invariant_except_break
                self.wf_for(*chain),
                ring_lens_positive(*chain),
                is_ring(*chain, n),
                n == ring_len(*chain),
                addr_in_ring(*chain, self.write_descr_ptr as int),
                advance_index(
                    *chain,
                    ring_index(*chain, self.write_descr_ptr as int),
                    forward as int,
                ) == target,
                *self == (TxCircularState {
                    write_descr_ptr: self.write_descr_ptr,
                    ..*old(self)
                }),
            ensures
                self.wf_for(*chain),
                self.write_descr_ptr as int == chain.desc_addr(target),
                addr_in_ring(*chain, self.write_descr_ptr as int),
                *self == (TxCircularState {
                    write_descr_ptr: self.write_descr_ptr,
                    ..*old(self)
                }),
            decreases forward,
        {
            let ghost wi = ring_index(*chain, self.write_descr_ptr as int);
            proof {
                lemma_ring_index(*chain, self.write_descr_ptr as int);
                assert((12 * wi) / 12 == wi) by (nonlinear_arith);
            }
            let widx = (self.write_descr_ptr - self.first_desc_ptr) / DESCRIPTOR_BYTES;
            let dw0 = chain.descriptors[widx];
            let segment_len = dw0.len();
            proof {
                if wi == n - 1 {
                    assert(chain.descriptors[n - 1].next == chain.base_address);
                    lemma_ring_addr(*chain, 0);
                } else {
                    assert(chain.descriptors[wi].next == chain.desc_addr(wi + 1));
                    lemma_ring_addr(*chain, wi + 1);
                }
            }
            self.write_descr_ptr = if dw0.next == 0 {
                self.first_desc_ptr
            } else {
                dw0.next
            };
            if forward <= segment_len {
                break ;
            }
            forward -= segment_len;
        }
    }

    /// Push bytes into the ring. Fails with `Overflow`, changing nothing,
    /// when more bytes are offered than are currently reclaimable;
    /// otherwise every byte is placed (wrapping at the buffer's end), the
    /// cursors advance, and the byte count is returned.
    pub fn push(&mut self, chain: &DescriptorChain, ring: &mut Vec<u8>, data: &[u8]) -> (r: Result<
        usize,
        DmaError,
    >)
        requires
            old(self).wf_for(*chain),
            ring_lens_positive(*chain),
            1 <= old(self).buffer_len,
            old(self).available <= old(self).buffer_len,
            old(ring).len() == old(self).buffer_len,
        ensures
            final(self).wf_for(*chain),
            final(self).buffer_start == old(self).buffer_start,
            final(self).buffer_len == old(self).buffer_len,
            final(self).first_desc_ptr == old(self).first_desc_ptr,
            final(self).last_seen_handled_descriptor_ptr == old(
                self,
            ).last_seen_handled_descriptor_ptr,
            final(ring)@.len() == old(ring)@.len(),
            data@.len() > old(self).available ==> r == Err::<usize, DmaError>(DmaError::Overflow)
                && *final(self) == *old(self) && final(ring)@ == old(ring)@,
            data@.len() <= old(self).available ==> ({
                let l = old(self).buffer_len as int;
                let wo = old(self).write_offset as int;
                let b = data@.len() as int;
                &&& r == Ok::<usize, DmaError>(data@.len() as usize)
                &&& final(self).available == old(self).available - b
                &&& final(self).write_offset == (wo + b) % l
                &&& final(self).write_descr_ptr == chain.desc_addr(
                    tx_push_target(*chain, *old(self), b),
                )
                &&& forall|j: int|
                    0 <= j < l ==> final(ring)@[j] == pushed_byte(old(ring)@, data@, wo, j)
            }),
    {
        let avail = self.available;
        if avail < data.len() {
            return Err(DmaError::Overflow);
        }
        let b = data.len();
        if b == 0 {
            proof {
                lemma_push_zero_bytes(old(ring)@, data@, self.write_offset as int);
                lemma_wrap_is_mod(
                    self.write_offset as int,
                    0,
                    self.buffer_len as int,
                );
                lemma_ring_index(*chain, self.write_descr_ptr as int);
            }
            return Ok(0);
        }
        let l = self.buffer_len;
        let wo = self.write_offset;
        let block = if self.available < l - wo {
            self.available
        } else {
            l - wo
        };
        let w1 = if block < b {
            block
        } else {
            b
        };
        let ghost ring0 = ring@;

        let mut k: usize = 0;
        while k < w1
            invariant
                k <= w1,
                w1 <= b,
                b == data@.len(),
                wo + w1 <= l,
                l == ring@.len(),
                ring0.len() == l,
                forall|j: int| 0 <= j < k ==> ring@[wo + j] == data@[j],
                forall|j: int| 0 <= j < l && !(wo <= j < wo + k) ==> ring@[j] == ring0[j],
            decreases w1 - k,
        {
            let v = data[k];
            ring.set(wo + k, v);
            k += 1;
        }

        proof {
            lemma_ring_index(*chain, self.write_descr_ptr as int);
        }
        self.advance_write_ptr(chain, w1);
        proof {
            lemma_advance_in_ring(
                *chain,
                ring_index(*chain, old(self).write_descr_ptr as int),
                w1 as int,
            );
            lemma_ring_addr(
                *chain,
                advance_index(
                    *chain,
                    ring_index(*chain, old(self).write_descr_ptr as int),
                    w1 as int,
                ),
            );
        }
        self.write_offset = if wo + w1 == l {
            0
        } else {
            wo + w1
        };
        self.available = self.available - w1;

        if w1 < b {
            // the first block filled the buffer's tail; continue from the
            // buffer's start
            let w2 = b - w1;
            let mut k2: usize = 0;
            while k2 < w2
                invariant
                    k2 <= w2,
                    w1 + w2 == b,
                    b == data@.len(),
                    w2 < l,
                    w2 <= wo,
                    wo + w1 == l,
                    l == ring@.len(),
                    ring0.len() == l,
                    forall|j: int| 0 <= j < k2 ==> ring@[j] == data@[w1 + j],
                    forall|j: int| wo <= j < l ==> ring@[j] == data@[j - wo],
                    forall|j: int| k2 <= j < wo ==> ring@[j] == ring0[j],
                decreases w2 - k2,
            {
                let v = data[w1 + k2];
                ring.set(k2, v);
                k2 += 1;
            }
            self.advance_write_ptr(chain, w2);
            self.write_offset = w2;
            self.available = self.available - w2;
        }

        proof {
            let lo = old(self).buffer_len as int;
            let woo = old(self).write_offset as int;
            let bb = data@.len() as int;
            lemma_wrap_is_mod(woo, bb, lo);
            assert forall|j: int| 0 <= j < lo implies ring@[j] == pushed_byte(
                ring0,
                data@,
                woo,
                j,
            ) by {
                lemma_wrap_dist(woo, lo, j);
            }
        }
        Ok(b)
    }
}

impl TxCircularState {
    /// Push bytes through a caller closure. The closure receives the
    /// writable block — the ring's bytes from the write cursor to the end
    /// of the reclaimable, contiguous region — and returns the block's new
    /// contents together with the count of bytes it actually wrote, which
    /// must not exceed the block. The cursors advance by that count; the
    /// write cursor always leaves its current descriptor, as the hardware
    /// latches progress per descriptor.
    pub fn push_with<F: FnOnce(Vec<u8>) -> (Vec<u8>, usize)>(
        &mut self,
        chain: &DescriptorChain,
        ring: &mut Vec<u8>,
        f: F,
    ) -> (r: Result<usize, DmaError>)
        requires
            old(self).wf_for(*chain),
            ring_lens_positive(*chain),
            1 <= old(self).buffer_len,
            old(self).available <= old(self).buffer_len,
            old(ring).len() == old(self).buffer_len,
            forall|buf: Vec<u8>|
                buf@.len() == spec_min(
                    old(self).available as int,
                    old(self).buffer_len - old(self).write_offset,
                ) ==> #[trigger] f.requires((buf,)),
            forall|buf: Vec<u8>, out: (Vec<u8>, usize)| #[trigger]
                f.ensures((buf,), out) ==> out.0@.len() == buf@.len() && out.1 <= buf@.len(),
        ensures
            final(self).wf_for(*chain),
            final(self).buffer_start == old(self).buffer_start,
            final(self).buffer_len == old(self).buffer_len,
            final(self).first_desc_ptr == old(self).first_desc_ptr,
            final(self).last_seen_handled_descriptor_ptr == old(
                self,
            ).last_seen_handled_descriptor_ptr,
            final(ring)@.len() == old(ring)@.len(),
            ({
                let l = old(self).buffer_len as int;
                let wo = old(self).write_offset as int;
                let block = spec_min(old(self).available as int, l - wo);
                let wi = ring_index(*chain, old(self).write_descr_ptr as int);
                exists|buf: Vec<u8>, out: (Vec<u8>, usize)|
                    {
                        &&& #[trigger] f.ensures((buf,), out)
                        &&& buf@ == old(ring)@.subrange(wo, wo + block)
                        &&& r == Ok::<usize, DmaError>(out.1)
                        &&& final(self).available == old(self).available - out.1
                        &&& final(self).write_offset == (wo + out.1) % l
                        &&& final(self).write_descr_ptr == chain.desc_addr(
                            advance_index(*chain, wi, out.1 as int),
                        )
                        &&& final(ring)@ == old(ring)@.subrange(0, wo).add(out.0@).add(
                            old(ring)@.subrange(wo + block, l),
                        )
                    }
            }),
    {
        let l = self.buffer_len;
        let wo = self.write_offset;
        let block = if self.available < l - wo {
            self.available
        } else {
            l - wo
        };

        let mut buf: Vec<u8> = Vec::new();
        let mut k: usize = 0;
        while k < block
            invariant
                k <= block,
                wo + block <= l,
                l == ring@.len(),
                buf@.len() == k as int,
                forall|j: int| 0 <= j < k ==> buf@[j] == ring@[wo + j],
            decreases block - k,
        {
            let v = ring[wo + k];
            buf.push(v);
            k += 1;
        }
        proof {
            assert(buf@ =~= ring@.subrange(wo as int, wo as int + block as int));
        }
        let ghost gbuf = buf;
        let out = f(buf);
        let written = out.1;
        let nbuf = out.0;
        let ghost ring1 = ring@;
        let mut k2: usize = 0;
        while k2 < block
            invariant
                k2 <= block,
                wo + block <= l,
                l == ring@.len(),
                ring1.len() == l,
                nbuf@.len() == block as int,
                forall|j: int| 0 <= j < k2 ==> ring@[wo + j] == nbuf@[j],
                forall|j: int| 0 <= j < l && !(wo <= j < wo + k2) ==> ring@[j] == ring1[j],
            decreases block - k2,
        {
            let v = nbuf[k2];
            ring.set(wo + k2, v);
            k2 += 1;
        }

        proof {
            lemma_ring_index(*chain, self.write_descr_ptr as int);
        }
        self.advance_write_ptr(chain, written);
        proof {
            lemma_advance_in_ring(
                *chain,
                ring_index(*chain, old(self).write_descr_ptr as int),
                written as int,
            );
            lemma_wrap_is_mod(wo as int, written as int, l as int);
        }
        self.write_offset = if wo + written == l {
            0
        } else {
            wo + written
        };
        self.available = self.available - written;

        proof {
            assert(ring@ =~= ring1.subrange(0, wo as int).add(nbuf@).add(
                ring1.subrange(wo as int + block as int, l as int),
            ));
            assert(f.ensures((gbuf,), (nbuf, written)));
        }
        Ok(written)
    }
}

/// No-progress law: a reconciliation whose reported cursor is exactly the
/// last-seen cursor reclaims nothing, so after an `update` has cleared the
/// end-of-frame latch, a second `update` with no hardware progress in
/// between — the latch still clear — leaves the state exactly as the first
/// call left it (that is the `!descriptors_handled` clause of `update`).
pub proof fn lemma_update_no_progress(c: DescriptorChain, ls: int)
    ensures
        tx_walk_sum(c, ls, ls) == 0,
{
}

/// Round-trip law: pushing `b` bytes and then reconciling a hardware walk
/// that reclaims exactly those `b` bytes restores `available` to its
/// pre-push value and leaves the write cursor `b` bytes past its pre-push
/// offset, modulo the buffer length. The producer must not start with the
/// whole buffer reclaimable: at `available == buffer_len` the overrun
/// recovery inside `update` consumes one descriptor back out and the claim
/// fails.
pub proof fn lemma_tx_round_trip(
    c: DescriptorChain,
    s0: TxCircularState,
    s1: TxCircularState,
    s2: TxCircularState,
    b: int,
    ls: int,
    ai: int,
)
    requires
        0 <= b <= s0.available,
        s0.available < s0.buffer_len,
        // what `push` ensures about the state it leaves:
        s1.available == s0.available - b,
        s1.write_offset == (s0.write_offset + b) % (s0.buffer_len as int),
        s1.buffer_len == s0.buffer_len,
        // the hardware's walk reclaims exactly the pushed bytes:
        tx_walk_sum(c, ls, ai) == b,
        // what `update` ensures about the state it leaves:
        s2.available == if s1.available + tx_walk_sum(c, ls, ai) >= s1.buffer_len {
            s1.available + tx_walk_sum(c, ls, ai) - c.descriptors[ring_index(
                c,
                s1.write_descr_ptr as int,
            )].spec_len()
        } else {
            s1.available + tx_walk_sum(c, ls, ai)
        },
        s2.write_offset == if s1.available + tx_walk_sum(c, ls, ai) >= s1.buffer_len {
            (s1.write_offset + c.descriptors[ring_index(
                c,
                s1.write_descr_ptr as int,
            )].spec_len()) % (s1.buffer_len as int)
        } else {
            s1.write_offset as int
        },
    ensures
        s2.available == s0.available,
        s2.write_offset == (s0.write_offset + b) % (s0.buffer_len as int),
{
}

/// Pushing zero bytes leaves every ring byte as the write map says.
proof fn lemma_push_zero_bytes(old_ring: Seq<u8>, data: Seq<u8>, wo: int)
    requires
        data.len() == 0,
        0 <= wo < old_ring.len(),
    ensures
        forall|j: int|
            0 <= j < old_ring.len() ==> old_ring[j] == pushed_byte(old_ring, data, wo, j),
{
    assert forall|j: int| 0 <= j < old_ring.len() implies old_ring[j] == pushed_byte(
        old_ring,
        data,
        wo,
        j,
    ) by {
        lemma_wrap_dist(wo, old_ring.len() as int, j);
    }
}

/// Where the write cursor lands after a successful push of `b` bytes from
/// state `s`: one advance step when the bytes fit before the buffer's end,
/// two otherwise.
pub open spec fn tx_push_target(c: DescriptorChain, s: TxCircularState, b: int) -> int {
    let wi = ring_index(c, s.write_descr_ptr as int);
    let block = spec_min(s.available as int, s.buffer_len - s.write_offset);
    let w1 = spec_min(block, b);
    if b == 0 {
        wi
    } else if w1 == b {
        advance_index(c, wi, b)
    } else {
        advance_index(c, advance_index(c, wi, w1), b - w1)
    }
}

/// With a cursor inside the buffer and a step of at most the buffer
/// length, wrapping by subtraction agrees with the modulo in the
/// specification.
proof fn lemma_wrap_is_mod(wo: int, seg: int, len: int)
    requires
        0 <= wo < len,
        0 <= seg <= len,
    ensures
        (wo + seg) % len == if seg < len - wo {
            wo + seg
        } else {
            wo + seg - len
        },
{
    if seg < len - wo {
        assert((wo + seg) % len == wo + seg) by (nonlinear_arith)
            requires
                0 <= wo + seg < len,
        ;
    } else {
        assert((wo + seg) % len == wo + seg - len) by (nonlinear_arith)
            requires
                len <= wo + seg < 2 * len,
                0 < len,
        ;
    }
}

/// On any chain with a ring, the chosen ring length is a witness.
proof fn lemma_ring_len_facts(c: DescriptorChain)
    requires
        has_ring(c),
    ensures
        is_ring(c, ring_len(c)),
{
    let n = choose|n: int| is_ring(c, n);
    assert(is_ring(c, n));
}

} // verus!
