//! The receive circular state machine.
//!
//! A circular receive transfer keeps the whole descriptor table in one
//! ring. The hardware fills descriptors and hands them to the CPU by
//! clearing the `owner` bit; the driver walks the ring from its last-seen
//! position, collects the filled byte counts, and on `pop` drains whole
//! descriptors into a caller buffer, recycling each drained descriptor
//! back to DMA ownership.

use vstd::prelude::*;
use crate::chain::{
    addr_in_ring, is_ring, lemma_ring_addr, lemma_ring_index, ring_index, ring_len,
    DescriptorChain, DESCRIPTOR_BYTES,
};
use crate::descriptor::{DmaDescriptor, Owner};
use crate::DmaError;

verus! {

/// Position `k` steps past `i` around a ring of `n` descriptors, for
/// `0 <= i < n` and `0 <= k <= n`.
pub open spec fn ring_step(n: int, i: int, k: int) -> int {
    if i + k < n {
        i + k
    } else {
        i + k - n
    }
}

/// The total `length` of the `k` ring descriptors starting at `start`,
/// walking forward around the ring.
pub open spec fn rx_run_sum(c: DescriptorChain, start: int, k: int) -> int
    decreases k,
{
    if k <= 0 {
        0
    } else {
        rx_run_sum(c, start, k - 1) + c.descriptors[ring_step(
            ring_len(c),
            start,
            k - 1,
        )].spec_len()
    }
}

/// Run sums are nonnegative.
pub proof fn lemma_rx_run_sum_nonneg(c: DescriptorChain, start: int, k: int)
    ensures
        0 <= rx_run_sum(c, start, k),
    decreases k,
{
    if k > 0 {
        lemma_rx_run_sum_nonneg(c, start, k - 1);
    }
}

/// Run sums grow by at most one full descriptor per step.
pub proof fn lemma_rx_run_sum_bound(c: DescriptorChain, start: int, k: int)
    requires
        0 <= k,
    ensures
        rx_run_sum(c, start, k) <= k * 0x1000,
    decreases k,
{
    if k > 0 {
        lemma_rx_run_sum_bound(c, start, k - 1);
        let d = c.descriptors[ring_step(ring_len(c), start, k - 1)];
        crate::flags::lemma_field_bounds(d.flags);
        assert(d.spec_len() <= 0x1000);
        assert(k * 0x1000 == (k - 1) * 0x1000 + 0x1000) by (nonlinear_arith);
        assert(rx_run_sum(c, start, k) == rx_run_sum(c, start, k - 1) + d.spec_len());
    }
}

/// How far the CPU-owned run from `start` extends is uniquely determined:
/// no two step counts can both sit on the first DMA-owned descriptor. In
/// particular a second `update` right after a first one finds the
/// descriptor after the new last-seen position DMA-owned, walks zero
/// steps, and changes nothing — updating is idempotent until the hardware
/// hands over another descriptor.
pub proof fn lemma_rx_run_unique(c: DescriptorChain, start: int, r1: int, r2: int)
    requires
        0 <= r1,
        0 <= r2,
        forall|k: int|
            0 <= k < r1 ==> #[trigger] c.descriptors[ring_step(
                ring_len(c),
                start,
                k,
            )].spec_owner() == Owner::Cpu,
        c.descriptors[ring_step(ring_len(c), start, r1)].spec_owner() == Owner::Dma,
        forall|k: int|
            0 <= k < r2 ==> #[trigger] c.descriptors[ring_step(
                ring_len(c),
                start,
                k,
            )].spec_owner() == Owner::Cpu,
        c.descriptors[ring_step(ring_len(c), start, r2)].spec_owner() == Owner::Dma,
    ensures
        r1 == r2,
{
    if r1 < r2 {
        assert(c.descriptors[ring_step(ring_len(c), start, r1)].spec_owner() == Owner::Cpu);
    } else if r2 < r1 {
        assert(c.descriptors[ring_step(ring_len(c), start, r2)].spec_owner() == Owner::Cpu);
    }
}

/// One candidate outcome of a reconciliation walk: starting at ring index
/// `start`, exactly the first `run` descriptors are CPU-owned, the next
/// one is DMA-owned, their byte counts are collected, and the last-seen
/// cursor rests on the final CPU-owned descriptor (or stays at the seed
/// when the hardware has handed nothing over).
pub open spec fn rx_update_run(
    c: DescriptorChain,
    pre: RxCircularState,
    post: RxCircularState,
    seed: int,
    start: int,
    run: int,
) -> bool {
    let n = ring_len(c);
    &&& 0 <= run < n
    &&& forall|k: int|
        0 <= k < run ==> #[trigger] c.descriptors[ring_step(n, start, k)].spec_owner()
            == Owner::Cpu
    &&& c.descriptors[ring_step(n, start, run)].spec_owner() == Owner::Dma
    &&& post.available == pre.available + rx_run_sum(c, start, run)
    &&& post.last_seen_handled_descriptor_ptr == if run == 0 {
        c.desc_addr(seed)
    } else {
        c.desc_addr(ring_step(n, start, run - 1))
    }
}

/// The ring position a reconciliation walks from: the last-seen position,
/// or the tail before the first call (so the walk starts at the head).
pub open spec fn rx_seed(c: DescriptorChain, pre: RxCircularState) -> int {
    if pre.last_seen_handled_descriptor_ptr == 0 {
        ring_len(c) - 1
    } else {
        ring_index(c, pre.last_seen_handled_descriptor_ptr as int)
    }
}

/// The first descriptor a reconciliation examines: the one after the seed.
pub open spec fn rx_start(c: DescriptorChain, pre: RxCircularState) -> int {
    ring_step(ring_len(c), rx_seed(c, pre), 1)
}

/// What a reconciliation does to the state: some uniquely determined run
/// of CPU-owned descriptors after the seed position is collected.
pub open spec fn rx_update_relates(
    c: DescriptorChain,
    pre: RxCircularState,
    post: RxCircularState,
) -> bool {
    exists|run: int| #[trigger]
        rx_update_run(c, pre, post, rx_seed(c, pre), rx_start(c, pre), run)
}

/// Packaging step: a concrete run witnesses the reconciliation relation.
proof fn lemma_rx_update_intro(
    c: DescriptorChain,
    pre: RxCircularState,
    post: RxCircularState,
    run: int,
)
    requires
        rx_update_run(c, pre, post, rx_seed(c, pre), rx_start(c, pre), run),
    ensures
        rx_update_relates(c, pre, post),
{
}

/// Run sums are monotone in the step count.
pub proof fn lemma_rx_run_sum_mono(c: DescriptorChain, start: int, t1: int, t2: int)
    requires
        0 <= t1 <= t2,
    ensures
        rx_run_sum(c, start, t1) <= rx_run_sum(c, start, t2),
    decreases t2 - t1,
{
    if t1 < t2 {
        lemma_rx_run_sum_mono(c, start, t1, t2 - 1);
        crate::flags::lemma_field_bounds(
            c.descriptors[ring_step(ring_len(c), start, t2 - 1)].flags,
        );
    }
}

/// A drained descriptor: recycled to DMA ownership with a cleared length
/// and end-of-frame marker, its geometry untouched.
pub open spec fn rx_reset_of(post: DmaDescriptor, pre: DmaDescriptor) -> bool {
    &&& post.spec_size() == pre.spec_size()
    &&& post.spec_len() == 0
    &&& post.spec_owner() == Owner::Dma
    &&& !post.spec_suc_eof()
    &&& post.buffer == pre.buffer
    &&& post.next == pre.next
}

/// What a successful drain leaves behind, for a walk of `steps` whole
/// descriptors from the read cursor: exactly the available bytes are
/// copied, descriptor by descriptor, into the output's prefix (each
/// descriptor's bytes read from the receive buffer at its own offset);
/// each drained descriptor is recycled; everything else — the ring's
/// remaining descriptors and the output's tail — is untouched, and the
/// read cursor rests on the first undrained descriptor.
pub open spec fn rx_pop_drained(
    c0: DescriptorChain,
    c1: DescriptorChain,
    s0: RxCircularState,
    s1: RxCircularState,
    src: Seq<u8>,
    src_base: int,
    d0: Seq<u8>,
    d1: Seq<u8>,
    steps: int,
) -> bool {
    let n = ring_len(c0);
    let read0 = ring_index(c0, s0.read_descr_ptr as int);
    &&& 0 <= steps < n
    &&& rx_run_sum(c0, read0, steps) == s0.available
    &&& forall|t: int| 0 <= t < steps ==> rx_run_sum(c0, read0, t) < s0.available
    &&& s1.read_descr_ptr == c0.desc_addr(ring_step(n, read0, steps))
    &&& forall|t: int|
        0 <= t < steps ==> rx_reset_of(
            #[trigger] c1.descriptors[ring_step(n, read0, t)],
            c0.descriptors[ring_step(n, read0, t)],
        )
    &&& forall|t: int|
        steps <= t < n ==> #[trigger] c1.descriptors[ring_step(n, read0, t)]
            == c0.descriptors[ring_step(n, read0, t)]
    &&& forall|t: int, u: int|
        0 <= t < steps && 0 <= u < c0.descriptors[ring_step(n, read0, t)].spec_len()
            ==> #[trigger] d1[rx_run_sum(c0, read0, t) + u] == src[c0.descriptors[ring_step(
            n,
            read0,
            t,
        )].buffer - src_base + u]
    &&& forall|j: int| s0.available <= j < d0.len() ==> d1[j] == d0[j]
}

/// Walking `a` steps and then `b` more equals walking `a + b` steps.
pub proof fn lemma_ring_step_compose(n: int, i: int, a: int, b: int)
    requires
        0 <= i < n,
        0 <= a,
        0 <= b,
        a + b <= n,
    ensures
        ring_step(n, ring_step(n, i, a), b) == ring_step(n, i, a + b),
{
}

/// Run sums concatenate: a walk of `a + b` descriptors collects what the
/// first `a` and the following `b` collect.
pub proof fn lemma_rx_run_sum_concat(c: DescriptorChain, i: int, a: int, b: int)
    requires
        0 <= i < ring_len(c),
        0 <= a,
        0 <= b,
        a + b <= ring_len(c),
    ensures
        rx_run_sum(c, i, a + b) == rx_run_sum(c, i, a) + rx_run_sum(
            c,
            ring_step(ring_len(c), i, a),
            b,
        ),
    decreases b,
{
    let n = ring_len(c);
    if b > 0 {
        lemma_rx_run_sum_concat(c, i, a, b - 1);
        lemma_ring_step_compose(n, i, a, b - 1);
        assert(rx_run_sum(c, i, a + b) == rx_run_sum(c, i, a + b - 1) + c.descriptors[ring_step(
            n,
            i,
            a + b - 1,
        )].spec_len());
        assert(rx_run_sum(c, ring_step(n, i, a), b) == rx_run_sum(c, ring_step(n, i, a), b - 1)
            + c.descriptors[ring_step(n, ring_step(n, i, a), b - 1)].spec_len());
    }
}

/// A consumer state in protocol step: `available` covers the `k` whole
/// descriptors from the read cursor, the next reconciliation continues
/// right after them, and the hardware still owns some descriptor within
/// the rest of the ring (index `r2` past that point).
pub open spec fn rx_ready_witness(
    c: DescriptorChain,
    s: RxCircularState,
    k: int,
    r2: int,
) -> bool {
    &&& 0 <= k
    &&& 0 <= r2
    &&& k + r2 < ring_len(c)
    &&& s.available == rx_run_sum(c, ring_index(c, s.read_descr_ptr as int), k)
    &&& rx_start(c, s) == ring_step(ring_len(c), ring_index(c, s.read_descr_ptr as int), k)
    &&& c.descriptors[ring_step(ring_len(c), rx_start(c, s), r2)].spec_owner() == Owner::Dma
}

/// A consumer state that the circular receive protocol can continue from.
pub open spec fn rx_handle_ready(c: DescriptorChain, s: RxCircularState) -> bool {
    exists|k: int, r2: int| #[trigger] rx_ready_witness(c, s, k, r2)
}

/// Protocol preservation law: a reconciliation keeps the consumer in
/// step. After `update`, the bytes available are still those of a whole
/// run of descriptors starting at the read cursor, and the state is ready
/// for the next reconciliation — so draining and refilling can alternate
/// indefinitely without losing or duplicating a byte.
pub proof fn lemma_rx_ready_after_update(
    c: DescriptorChain,
    pre: RxCircularState,
    post: RxCircularState,
)
    requires
        pre.wf_for(c),
        rx_handle_ready(c, pre),
        rx_update_relates(c, pre, post),
        post.read_descr_ptr == pre.read_descr_ptr,
    ensures
        rx_handle_ready(c, post),
        exists|k: int|
            0 <= k < ring_len(c) && post.available == rx_run_sum(
                c,
                ring_index(c, post.read_descr_ptr as int),
                k,
            ),
{
    let n = ring_len(c);
    let read = ring_index(c, pre.read_descr_ptr as int);
    lemma_ring_index(c, pre.read_descr_ptr as int);
    let (k, r2) = choose|k: int, r2: int| rx_ready_witness(c, pre, k, r2);
    assert(rx_ready_witness(c, pre, k, r2));
    let seed = rx_seed(c, pre);
    let start = rx_start(c, pre);
    let run = choose|run: int| rx_update_run(c, pre, post, seed, start, run);
    assert(rx_update_run(c, pre, post, seed, start, run));
    if run > r2 {
        assert(c.descriptors[ring_step(n, start, r2)].spec_owner() == Owner::Cpu);
        assert(false);
    }
    lemma_rx_run_sum_concat(c, read, k, run);
    assert(post.available == rx_run_sum(c, read, k + run));
    lemma_ring_step_compose(n, read, k, run);
    if run == 0 {
        assert(post.last_seen_handled_descriptor_ptr == c.desc_addr(seed));
        assert(post.last_seen_handled_descriptor_ptr != 0 ==> rx_seed(c, post) == ring_index(
            c,
            post.last_seen_handled_descriptor_ptr as int,
        ));
        if pre.last_seen_handled_descriptor_ptr == 0 {
            assert(seed == n - 1);
            lemma_ring_addr(c, seed);
            assert(post.last_seen_handled_descriptor_ptr >= 1);
            assert(rx_seed(c, post) == seed);
        } else {
            lemma_ring_index(c, pre.last_seen_handled_descriptor_ptr as int);
            lemma_ring_addr(c, seed);
            assert(rx_seed(c, post) == seed);
        }
        assert(rx_start(c, post) == start);
        assert(rx_ready_witness(c, post, k + run, 0));
    } else {
        let tail = ring_step(n, start, run - 1);
        assert(post.last_seen_handled_descriptor_ptr == c.desc_addr(tail));
        lemma_ring_addr(c, tail);
        assert(post.last_seen_handled_descriptor_ptr >= 1);
        assert(rx_seed(c, post) == tail);
        lemma_ring_step_compose(n, start, run - 1, 1);
        assert(rx_start(c, post) == ring_step(n, start, run));
        assert(rx_ready_witness(c, post, k + run, 0));
    }
}

/// Consumer-side bookkeeping for a circular receive transfer.
#[derive(Debug, Clone, Copy, PartialEq, Eq, Structural)]
pub struct RxCircularState {
    /// Address of the next descriptor the consumer drains.
    pub read_descr_ptr: usize,
    /// Bytes that may be popped.
    pub available: usize,
    /// The last descriptor the consumer accounted for, or 0 before the
    /// first reconciliation (the first `update` seeds it to the ring's
    /// tail, so the first link follow lands on the head).
    pub last_seen_handled_descriptor_ptr: usize,
    /// Address of the ring's tail descriptor, used only for seeding.
    pub last_descr_ptr: usize,
}

impl RxCircularState {
    /// How this state relates to the chain it was built from: the whole
    /// table forms one ring, the read cursor points at a ring member, the
    /// last-seen cursor is null or a ring member, and the tail pointer is
    /// the table's last descriptor.
    pub open spec fn wf_for(self, c: DescriptorChain) -> bool {
        &&& c.wf()
        &&& is_ring(c, c.descriptors.len() as int)
        &&& ring_len(c) == c.descriptors.len()
        &&& addr_in_ring(c, self.read_descr_ptr as int)
        &&& self.last_seen_handled_descriptor_ptr == 0 || addr_in_ring(
            c,
            self.last_seen_handled_descriptor_ptr as int,
        )
        &&& self.last_descr_ptr == c.desc_addr(c.descriptors.len() - 1)
    }

    /// Fresh consumer state over a freshly built circular chain: the read
    /// cursor at the head, nothing available, and the last-seen cursor
    /// null so that the first `update` starts at the head.
    pub fn new(chain: &mut DescriptorChain) -> (r: Self)
        requires
            old(chain).wf(),
        ensures
            *final(chain) == *old(chain),
            r.read_descr_ptr == old(chain).base_address,
            r.available == 0,
            r.last_seen_handled_descriptor_ptr == 0,
            r.last_descr_ptr == old(chain).desc_addr(old(chain).descriptors.len() - 1),
            is_ring(*old(chain), old(chain).descriptors.len() as int) ==> r.wf_for(*old(chain)),
    {
        let first = chain.first_mut();
        let last = chain.last_mut();
        let r = RxCircularState {
            read_descr_ptr: first,
            available: 0,
            last_seen_handled_descriptor_ptr: 0,
            last_descr_ptr: last,
        };
        proof {
            if is_ring(*chain, chain.descriptors.len() as int) {
                crate::chain::lemma_ring_len(*chain, chain.descriptors.len() as int);
                lemma_ring_addr(*chain, 0);
            }
        }
        r
    }

    /// Walk the ring from the descriptor after the last-seen one, while
    /// descriptors are CPU-owned, accumulating their received byte counts
    /// into `available`. Stops at the first DMA-owned descriptor; at least
    /// one descriptor must be DMA-owned, or the hardware would still own
    /// the whole ring it is filling.
    #[verifier::rlimit(60)]
    #[verifier::spinoff_prover]
    pub fn update(&mut self, chain: &DescriptorChain)
        requires
            old(self).wf_for(*chain),
            exists|j: int|
                0 <= j < ring_len(*chain) && #[trigger] chain.descriptors[j].spec_owner()
                    == Owner::Dma,
            old(self).available + chain.descriptors.len() * 0x1000 <= usize::MAX,
        ensures
            final(self).wf_for(*chain),
            final(self).read_descr_ptr == old(self).read_descr_ptr,
            final(self).last_descr_ptr == old(self).last_descr_ptr,
            rx_update_relates(*chain, *old(self), *final(self)),
    {
        let ghost n = ring_len(*chain);
        if self.last_seen_handled_descriptor_ptr == 0 {
            // start at the tail, so that the next link follow yields the
            // head
            self.last_seen_handled_descriptor_ptr = self.last_descr_ptr;
            proof {
                lemma_ring_addr(*chain, n - 1);
            }
        }
        let ghost seed = ring_index(*chain, self.last_seen_handled_descriptor_ptr as int);
        let ghost start = ring_step(n, seed, 1);
        let ghost avail0 = self.available as int;
        let ghost jd = choose|j: int|
            0 <= j < n && #[trigger] chain.descriptors[j].spec_owner() == Owner::Dma;
        let ghost k0 = if jd >= start {
            jd - start
        } else {
            jd - start + n
        };
        proof {
            lemma_ring_index(*chain, self.last_seen_handled_descriptor_ptr as int);
        }

        let seed_idx = (self.last_seen_handled_descriptor_ptr - chain.base_address)
            / DESCRIPTOR_BYTES;
        proof {
            assert((12 * seed) / 12 == seed) by (nonlinear_arith);
        }
        let mut current_in_descr_ptr = chain.descriptors[seed_idx].next;
        proof {
            if seed == n - 1 {
                assert(chain.descriptors[n - 1].next == chain.base_address);
            } else {
                assert(chain.descriptors[seed].next == chain.desc_addr(seed + 1));
            }
            lemma_ring_addr(*chain, start);
        }
        let cidx = (current_in_descr_ptr - chain.base_address) / DESCRIPTOR_BYTES;
        proof {
            assert((12 * start) / 12 == start) by (nonlinear_arith);
        }
        let mut current_in_descr = chain.descriptors[cidx];
        let ghost steps: int = 0;

        while current_in_descr.owner() == Owner::Cpu
            invariant
                self.wf_for(*chain),
                n == ring_len(*chain),
                0 <= seed < n,
                old(self).last_seen_handled_descriptor_ptr == 0 ==> seed == n - 1,
                old(self).last_seen_handled_descriptor_ptr != 0 ==> seed == ring_index(
                    *chain,
                    old(self).last_seen_handled_descriptor_ptr as int,
                ),
                old(self).available == avail0,
                start == ring_step(n, seed, 1),
                0 <= start < n,
                0 <= steps <= k0,
                0 <= jd < n,
                k0 < n,
                jd == ring_step(n, start, k0),
                chain.descriptors[jd].spec_owner() == Owner::Dma,
                current_in_descr == chain.descriptors[ring_step(n, start, steps)],
                current_in_descr_ptr as int == chain.desc_addr(ring_step(n, start, steps)),
                forall|k: int|
                    0 <= k < steps ==> #[trigger] chain.descriptors[ring_step(
                        n,
                        start,
                        k,
                    )].spec_owner() == Owner::Cpu,
                self.available as int == avail0 + rx_run_sum(*chain, start, steps),
                avail0 + chain.descriptors.len() * 0x1000 <= usize::MAX,
                self.read_descr_ptr == old(self).read_descr_ptr,
                self.last_descr_ptr == old(self).last_descr_ptr,
                self.last_seen_handled_descriptor_ptr as int == if steps == 0 {
                    chain.desc_addr(seed)
                } else {
                    chain.desc_addr(ring_step(n, start, steps - 1))
                },
            decreases k0 - steps,
        {
            let ghost cur = ring_step(n, start, steps);
            proof {
                assert(steps < k0);
                lemma_rx_run_sum_nonneg(*chain, start, steps);
                lemma_rx_run_sum_bound(*chain, start, steps);
                crate::flags::lemma_field_bounds(current_in_descr.flags);
                assert(steps * 0x1000 + 0x1000 <= chain.descriptors.len() * 0x1000)
                    by (nonlinear_arith)
                    requires
                        steps + 1 <= chain.descriptors.len(),
                ;
            }
            self.available = self.available + current_in_descr.len();
            self.last_seen_handled_descriptor_ptr = current_in_descr_ptr;

            proof {
                if cur == n - 1 {
                    assert(chain.descriptors[n - 1].next == chain.base_address);
                } else {
                    assert(chain.descriptors[cur].next == chain.desc_addr(cur + 1));
                }
                lemma_ring_addr(*chain, ring_step(n, start, steps + 1));
                assert((12 * ring_step(n, start, steps + 1)) / 12 == ring_step(
                    n,
                    start,
                    steps + 1,
                )) by (nonlinear_arith);
            }
            current_in_descr_ptr = current_in_descr.next;
            let nidx = (current_in_descr_ptr - chain.base_address) / DESCRIPTOR_BYTES;
            current_in_descr = chain.descriptors[nidx];
            proof {
                steps = steps + 1;
            }
        }

        proof {
            let run = steps;
            assert(chain.descriptors[ring_step(n, start, run)].spec_owner() == Owner::Dma);
            let sd = rx_seed(*chain, *old(self));
            assert(sd == seed);
            assert(rx_update_run(*chain, *old(self), *self, sd, ring_step(n, sd, 1), run));
            lemma_rx_update_intro(*chain, *old(self), *self, run);
        }
    }

    /// Drain the available bytes into `data`, whole descriptors at a
    /// time, recycling each drained descriptor back to DMA ownership.
    /// `src` is the receive data buffer the hardware filled, sitting at
    /// address `src_base`; every ring descriptor's fragment must lie
    /// inside it. Fails with `BufferTooSmall`, changing nothing, when the
    /// output cannot hold everything available: a descriptor is either
    /// fully drained or left untouched, so callers size outputs to
    /// whole-descriptor boundaries.
    #[verifier::rlimit(80)]
    #[verifier::spinoff_prover]
    pub fn pop(
        &mut self,
        chain: &mut DescriptorChain,
        src: &Vec<u8>,
        src_base: usize,
        data: &mut Vec<u8>,
    ) -> (r: Result<usize, DmaError>)
        requires
            old(self).wf_for(*old(chain)),
            exists|k: int|
                0 <= k < ring_len(*old(chain)) && old(self).available == rx_run_sum(
                    *old(chain),
                    ring_index(*old(chain), old(self).read_descr_ptr as int),
                    k,
                ),
            forall|i: int|
                0 <= i < old(chain).descriptors.len() ==> src_base <= #[trigger] old(
                    chain,
                ).descriptors[i].buffer && old(chain).descriptors[i].buffer - src_base + old(
                    chain,
                ).descriptors[i].spec_len() <= src.len(),
        ensures
            final(self).wf_for(*final(chain)),
            final(self).last_seen_handled_descriptor_ptr == old(
                self,
            ).last_seen_handled_descriptor_ptr,
            final(self).last_descr_ptr == old(self).last_descr_ptr,
            final(chain).base_address == old(chain).base_address,
            final(chain).chunk_size == old(chain).chunk_size,
            final(chain).descriptors.len() == old(chain).descriptors.len(),
            final(data)@.len() == old(data)@.len(),
            old(self).available > old(data)@.len() ==> r == Err::<usize, DmaError>(
                DmaError::BufferTooSmall,
            ) && *final(self) == *old(self) && *final(chain) == *old(chain) && final(data)@ == old(
                data,
            )@,
            old(self).available <= old(data)@.len() ==> r == Ok::<usize, DmaError>(
                old(self).available,
            ) && final(self).available == 0 && exists|steps: int|
                #[trigger] rx_pop_drained(
                    *old(chain),
                    *final(chain),
                    *old(self),
                    *final(self),
                    src@,
                    src_base as int,
                    old(data)@,
                    final(data)@,
                    steps,
                ),
    {
        let len = data.len();
        let mut avail = self.available;
        if avail > len {
            return Err(DmaError::BufferTooSmall);
        }
        let ghost c0 = *chain;
        let ghost d0 = data@;
        let ghost n = ring_len(*chain);
        let ghost read0 = ring_index(*chain, self.read_descr_ptr as int);
        let ghost av0 = self.available as int;
        let ghost kw = choose|k: int| 0 <= k < n && av0 == rx_run_sum(c0, read0, k);
        proof {
            lemma_ring_index(*chain, self.read_descr_ptr as int);
        }

        let mut remaining: usize = len;
        let mut descr_ptr = self.read_descr_ptr;
        if descr_ptr == 0 {
            proof {
                assert(false);
            }
            return Ok(0);
        }
        let didx = (descr_ptr - chain.base_address) / DESCRIPTOR_BYTES;
        proof {
            assert((12 * read0) / 12 == read0) by (nonlinear_arith);
        }
        let mut descr = chain.descriptors[didx];
        let ghost steps: int = 0;

        while avail > 0 && remaining > 0 && remaining >= descr.len()
            invariant
                c0.wf(),
                is_ring(c0, n),
                n == ring_len(c0),
                n == c0.descriptors.len(),
                is_ring(*chain, n),
                n == ring_len(*chain),
                chain.base_address == c0.base_address,
                chain.chunk_size == c0.chunk_size,
                chain.descriptors.len() == n,
                0 <= read0 < n,
                0 <= kw < n,
                rx_run_sum(c0, read0, kw) == av0,
                0 <= steps <= kw,
                avail as int == av0 - rx_run_sum(c0, read0, steps),
                remaining as int == len - rx_run_sum(c0, read0, steps),
                av0 <= len,
                len == data@.len(),
                d0.len() == len,
                descr == c0.descriptors[ring_step(n, read0, steps)],
                descr_ptr as int == c0.desc_addr(ring_step(n, read0, steps)),
                forall|t: int| 0 <= t < steps ==> rx_run_sum(c0, read0, t) < av0,
                forall|t: int|
                    0 <= t < steps ==> rx_reset_of(
                        #[trigger] chain.descriptors[ring_step(n, read0, t)],
                        c0.descriptors[ring_step(n, read0, t)],
                    ),
                forall|t: int|
                    steps <= t < n ==> #[trigger] chain.descriptors[ring_step(n, read0, t)]
                        == c0.descriptors[ring_step(n, read0, t)],
                forall|t: int, u: int|
                    0 <= t < steps && 0 <= u < c0.descriptors[ring_step(n, read0, t)].spec_len()
                        ==> #[trigger] data@[rx_run_sum(c0, read0, t) + u] == src@[c0.descriptors[
                        ring_step(n, read0, t)
                    ].buffer - src_base + u],
                forall|j: int| rx_run_sum(c0, read0, steps) <= j < len ==> data@[j] == d0[j],
                forall|i: int|
                    0 <= i < n ==> src_base <= #[trigger] c0.descriptors[i].buffer
                        && c0.descriptors[i].buffer - src_base + c0.descriptors[i].spec_len()
                        <= src.len(),
                *self == *old(self),
            decreases kw - steps,
        {
            let ghost cur = ring_step(n, read0, steps);
            proof {
                lemma_rx_run_sum_mono(c0, read0, steps, kw);
                assert(steps < kw);
                assert(rx_run_sum(c0, read0, steps + 1) == rx_run_sum(c0, read0, steps)
                    + c0.descriptors[cur].spec_len());
                lemma_rx_run_sum_mono(c0, read0, steps + 1, kw);
                lemma_rx_run_sum_nonneg(c0, read0, steps);
                assert((12 * cur) / 12 == cur) by (nonlinear_arith);
            }
            let cidx = (descr_ptr - chain.base_address) / DESCRIPTOR_BYTES;
            let count = descr.len();
            let soff = descr.buffer - src_base;
            let wp = len - remaining;
            let slen = src.len();
            let ghost dpre = data@;
            let mut u: usize = 0;
            while u < count
                invariant
                    u <= count,
                    wp + count <= len,
                    len == data@.len(),
                    dpre.len() == len,
                    slen == src@.len(),
                    soff + count <= slen,
                    count == descr.spec_len(),
                    soff == descr.buffer - src_base,
                    forall|j: int| 0 <= j < u ==> #[trigger] data@[wp + j] == src@[soff + j],
                    forall|j: int|
                        0 <= j < len && !(wp <= j < wp + u) ==> #[trigger] data@[j] == dpre[j],
                decreases count - u,
            {
                let v = src[soff + u];
                data.set(wp + u, v);
                u += 1;
            }

            proof {
                assert(wp as int == rx_run_sum(c0, read0, steps));
                assert forall|t: int, uu: int|
                    0 <= t < steps && 0 <= uu < c0.descriptors[ring_step(
                        n,
                        read0,
                        t,
                    )].spec_len() implies #[trigger] data@[rx_run_sum(c0, read0, t) + uu]
                    == src@[c0.descriptors[ring_step(n, read0, t)].buffer - src_base + uu] by {
                    lemma_rx_run_sum_mono(c0, read0, t + 1, steps);
                    assert(rx_run_sum(c0, read0, t + 1) == rx_run_sum(c0, read0, t)
                        + c0.descriptors[ring_step(n, read0, t)].spec_len());
                    lemma_rx_run_sum_nonneg(c0, read0, t);
                    assert(data@[rx_run_sum(c0, read0, t) + uu] == dpre[rx_run_sum(
                        c0,
                        read0,
                        t,
                    ) + uu]);
                }
                assert(rx_run_sum(c0, read0, steps + 1) == rx_run_sum(c0, read0, steps) + count);
                assert forall|j: int|
                    rx_run_sum(c0, read0, steps + 1) <= j < len implies data@[j] == d0[j] by {
                    assert(data@[j] == dpre[j]);
                }
            }
            let mut dw = descr;
            dw.set_owner(Owner::Dma);
            dw.set_suc_eof(false);
            dw.set_length(0);
            let ghost chainpre = *chain;
            chain.descriptors.set(cidx, dw);
            proof {
                assert(rx_reset_of(chain.descriptors[cur], c0.descriptors[cur]));
                assert forall|i: int| 0 <= i < n implies chain.descriptors[i].next
                    == c0.descriptors[i].next by {
                    if i != cur {
                        assert(chain.descriptors[i] == chainpre.descriptors[i]);
                    }
                }
                assert(is_ring(*chain, n));
                crate::chain::lemma_ring_len(*chain, n);
            }

            remaining = remaining - count;
            avail = avail - count;
            descr_ptr = descr.next;
            proof {
                if cur == n - 1 {
                    assert(c0.descriptors[n - 1].next == c0.base_address);
                    assert(ring_step(n, read0, steps + 1) == 0);
                } else {
                    assert(c0.descriptors[cur].next == c0.desc_addr(cur + 1));
                    assert(ring_step(n, read0, steps + 1) == cur + 1);
                }
                steps = steps + 1;
                assert((12 * ring_step(n, read0, steps)) / 12 == ring_step(n, read0, steps))
                    by (nonlinear_arith);
            }
            let nidx = (descr_ptr - chain.base_address) / DESCRIPTOR_BYTES;
            descr = chain.descriptors[nidx];
        }

        proof {
            lemma_rx_run_sum_mono(c0, read0, steps, kw);
            if avail > 0 {
                assert(steps < kw);
                assert(rx_run_sum(c0, read0, steps + 1) == rx_run_sum(c0, read0, steps)
                    + c0.descriptors[ring_step(n, read0, steps)].spec_len());
                lemma_rx_run_sum_mono(c0, read0, steps + 1, kw);
                lemma_rx_run_sum_nonneg(c0, read0, steps);
                assert(false);
            }
            lemma_ring_addr(*chain, ring_step(n, read0, steps));
        }
        self.read_descr_ptr = descr_ptr;
        self.available = avail;
        proof {
            assert(rx_pop_drained(
                c0,
                *chain,
                *old(self),
                *self,
                src@,
                src_base as int,
                d0,
                data@,
                steps,
            ));
        }
        Ok(len - remaining)
    }
}

} // verus!
