use vstd::prelude::*;
use crate::mem::{alloc_pages, PhysMem};
use crate::constants::{
    VIRTIO_ENTRY,
    VIRTIO_ERR_NO_BUF,
    VIRTIO_ERR_OUT_OF_INDEX,
    VIRTIO_ERR_TOO_LARGE,
    VIRTIO_NET_MAX_PACKET_SIZE,
};

verus! {

/// Size in bytes of the virtio-net packet header.
pub const VIRTIO_NET_HDR_SIZE: u32 = 12;

/// Offset of the queue-notify register in a virtio MMIO device.
pub const VIRTIO_REG_QUEUE_NOTIFY: u64 = 0x50;

/// A descriptor of the virtqueue's descriptor table.
#[derive(Clone, Copy, Debug)]
pub struct VirtqDesc {
    pub addr: u64,
    pub len: u32,
    pub flags: u16,
    pub next: u16,
}

/// The driver's ring of available descriptor chains. The ring has
/// `VIRTIO_ENTRY` slots, one per descriptor, so that `send` has a slot to offer
/// each chain in; the queue's memory layout, which fixes where `used_idx`
/// points (`VIRTQ_USED_IDX_OFFSET`), counts only the ring's 6-byte header.
#[derive(Clone, Copy, Debug)]
pub struct VirtqAvail {
    pub flags: u16,
    pub idx: u16,
    pub ring: [u16; 16],
    pub used_event: u16,
}

/// One entry of the device's used ring.
#[derive(Clone, Copy, Debug)]
pub struct VirtqUsedElem {
    pub id: u32,
    pub len: u32,
}

/// The device's ring of used descriptor chains.
#[derive(Clone, Copy, Debug)]
pub struct VirtqUsed {
    pub flags: u16,
    pub idx: u16,
    pub ring: [VirtqUsedElem; 16],
    pub avail_event: u16,
}

/// A buffer in a descriptor chain: where it is, how long, and whether the
/// device writes it.
#[derive(Clone, Copy, Debug)]
pub struct VirtioChainEntry {
    pub idx: u16,
    pub addr: u64,
    pub len: u32,
    pub writeable: bool,
}

/// A split virtqueue with `VIRTIO_ENTRY` descriptors.
#[derive(Clone, Copy, Debug)]
pub struct Virtq {
    pub desc: [VirtqDesc; 16],
    pub avail: VirtqAvail,
    pub used: VirtqUsed,
    pub idx: u32,
    pub used_idx: u64,
    pub last_used_idx: u16,
}

/// Offset of the used ring's index from the start of a virtqueue in memory:
/// 16 descriptors of 16 bytes, the 6-byte available-ring header (flags, index
/// and used-event fields, with no ring slots laid out), and the used ring's
/// 2-byte flags.
pub const VIRTQ_USED_IDX_OFFSET: u64 = 264;

/// Pages that a virtqueue takes from the page allocator: its rings padded to a
/// page boundary, then its queue index and bookkeeping fields.
pub const VIRTQ_PAGES: u64 = 2;

/// Physical address of the virtio-net device's registers.
pub const VIRTIO_NET_PADDR: u64 = 0x1000_8000;

/// Offsets of the queue-setup registers of a virtio MMIO device.
pub const VIRTIO_REG_QUEUE_SEL: u64 = 0x30;
pub const VIRTIO_REG_QUEUE_NUM: u64 = 0x38;
pub const VIRTIO_REG_QUEUE_ALIGN: u64 = 0x3c;
pub const VIRTIO_REG_QUEUE_PFN: u64 = 0x40;

/// The register writes that announce queue `idx` at physical address `addr` to
/// the virtio-net device, in order: select the queue, set its size to
/// `VIRTIO_ENTRY`, its alignment to 0, and its page register to the address's
/// low 32 bits.
pub open spec fn queue_setup(idx: u32, addr: u64) -> Seq<MmioWrite> {
    seq![
        MmioWrite { addr: (VIRTIO_NET_PADDR + VIRTIO_REG_QUEUE_SEL) as u64, value: idx },
        MmioWrite { addr: (VIRTIO_NET_PADDR + VIRTIO_REG_QUEUE_NUM) as u64, value: 16 },
        MmioWrite { addr: (VIRTIO_NET_PADDR + VIRTIO_REG_QUEUE_ALIGN) as u64, value: 0 },
        MmioWrite { addr: (VIRTIO_NET_PADDR + VIRTIO_REG_QUEUE_PFN) as u64, value: addr as u32 },
    ]
}

/// Descriptor `i` as `send` writes it for a chain of `n` entries.
pub open spec fn sent_desc(chain: Seq<VirtioChainEntry>, i: int) -> VirtqDesc {
    VirtqDesc {
        addr: chain[i].addr,
        len: chain[i].len,
        flags: if chain[i].writeable {
            2
        } else {
            1
        },
        next: if i == chain.len() - 1 {
            0
        } else {
            (i + 1) as u16
        },
    }
}

/// Where the descriptor chain starting at `i` ends and the total length of its
/// buffers, when it ends within `fuel` links.
pub open spec fn chain_walk(desc: Seq<VirtqDesc>, i: int, fuel: nat) -> Option<(int, int)>
    decreases fuel,
{
    if !(0 <= i < 16) {
        None
    } else if desc[i].next == 0 {
        Some((i, desc[i].len as int))
    } else if fuel == 0 {
        None
    } else {
        match chain_walk(desc, desc[i].next as int, (fuel - 1) as nat) {
            Some((e, s)) => Some((e, s + desc[i].len)),
            None => None,
        }
    }
}

/// Last descriptor of the chain from `i` (meaningful when the chain ends).
pub open spec fn walk_end(desc: Seq<VirtqDesc>, i: int, fuel: nat) -> int {
    match chain_walk(desc, i, fuel) {
        Some((e, s)) => e,
        None => 0,
    }
}

/// Total buffer length of the chain from `i` (meaningful when the chain ends).
pub open spec fn walk_sum(desc: Seq<VirtqDesc>, i: int, fuel: nat) -> int {
    match chain_walk(desc, i, fuel) {
        Some((e, s)) => s,
        None => 0,
    }
}

/// A chain that ends does so at a descriptor with no successor, and its total
/// length covers its first buffer.
proof fn lemma_chain_walk(desc: Seq<VirtqDesc>, i: int, fuel: nat)
    requires
        chain_walk(desc, i, fuel) is Some,
    ensures
        0 <= i < 16,
        0 <= walk_end(desc, i, fuel) < 16,
        desc[walk_end(desc, i, fuel)].next == 0,
        walk_sum(desc, i, fuel) >= desc[i].len,
    decreases fuel,
{
    if desc[i].next != 0 {
        lemma_chain_walk(desc, desc[i].next as int, (fuel - 1) as nat);
    }
}

/// Number of used-ring entries from `s` on that carry a nonzero id.
pub open spec fn used_run(ring: Seq<VirtqUsedElem>, s: int) -> nat
    decreases 16 - s,
{
    if s >= 16 || s < 0 || ring[s].id == 0 {
        0
    } else {
        1 + used_run(ring, s + 1)
    }
}

/// The chains `recv` reports for `n` used entries: the first covers the chain
/// from descriptor 0 (its start address and total length); every later one
/// the last descriptor of that chain.
pub open spec fn received(desc: Seq<VirtqDesc>, n: nat) -> Seq<VirtioChainEntry> {
    let (e, total) = match chain_walk(desc, 0, 16) {
        Some(p) => p,
        None => (0, 0),
    };
    Seq::new(
        n,
        |i: int|
            if i == 0 {
                VirtioChainEntry { idx: 0, addr: desc[0].addr, len: total as u32, writeable: false }
            } else {
                VirtioChainEntry { idx: 0, addr: desc[e].addr, len: desc[e].len, writeable: false }
            },
    )
}

/// Total buffer length of the entries of `chain` from `i` on.
pub open spec fn chain_len_from(chain: Seq<VirtioChainEntry>, i: int) -> int
    decreases chain.len() - i,
{
    if i < 0 || i >= chain.len() {
        0
    } else {
        chain[i].len + chain_len_from(chain, i + 1)
    }
}

/// In a descriptor table that starts with a sent chain, the walk from entry
/// `i` of the chain reaches its last entry and sums the lengths from `i` on.
proof fn lemma_sent_walk(chain: Seq<VirtioChainEntry>, desc: Seq<VirtqDesc>, i: int, fuel: nat)
    requires
        1 <= chain.len() <= 16,
        forall|j: int| 0 <= j < chain.len() ==> #[trigger] desc[j] == sent_desc(chain, j),
        0 <= i < chain.len(),
        fuel >= chain.len() - 1 - i,
    ensures
        chain_walk(desc, i, fuel) == Some(((chain.len() - 1) as int, chain_len_from(chain, i))),
    decreases chain.len() - i,
{
    assert(desc[i] == sent_desc(chain, i));
    if i < chain.len() - 1 {
        lemma_sent_walk(chain, desc, i + 1, (fuel - 1) as nat);
        assert(chain_len_from(chain, i + 1) == 0 + chain_len_from(chain, i + 1));
    } else {
        assert(chain_len_from(chain, i + 1) == 0);
    }
}

/// A chain written by `send` is what `recv` hands back for one used entry: its
/// descriptors link from slot 0 to the chain's last entry, and the single
/// reported entry carries the chain's first address and the sum of its
/// lengths (when that sum fits 32 bits, as `recv` requires).
pub proof fn lemma_recv_after_send(chain: Seq<VirtioChainEntry>, desc: Seq<VirtqDesc>)
    requires
        1 <= chain.len() <= 16,
        forall|i: int| 0 <= i < chain.len() ==> #[trigger] desc[i] == sent_desc(chain, i),
    ensures
        chain_walk(desc, 0, 16) == Some(((chain.len() - 1) as int, chain_len_from(chain, 0))),
        chain_len_from(chain, 0) <= u32::MAX ==> received(desc, 1) == seq![
            VirtioChainEntry {
                idx: 0,
                addr: chain[0].addr,
                len: chain_len_from(chain, 0) as u32,
                writeable: false,
            },
        ],
{
    lemma_sent_walk(chain, desc, 0, 16);
    assert(desc[0] == sent_desc(chain, 0));
    if chain_len_from(chain, 0) <= u32::MAX {
        assert(received(desc, 1) =~= seq![
            VirtioChainEntry {
                idx: 0,
                addr: chain[0].addr,
                len: chain_len_from(chain, 0) as u32,
                writeable: false,
            },
        ]);
    }
}

/// `recv` can run: the used run ends inside the ring and, when there is one,
/// the chain from descriptor 0 ends and its total length fits 32 bits.
pub open spec fn recv_ok(q: Virtq) -> bool {
    &&& q.last_used_idx + used_run(q.used.ring@, q.last_used_idx as int) < 16
    &&& used_run(q.used.ring@, q.last_used_idx as int) > 0 ==> match chain_walk(q.desc@, 0, 16) {
        Some((e, total)) => total <= u32::MAX,
        None => false,
    }
}

/// Index of the first descriptor with no buffer length set.
pub open spec fn first_free_desc(desc: Seq<VirtqDesc>) -> Option<int> {
    if exists|i: int| 0 <= i < 16 && #[trigger] desc[i].len == 0 {
        Some(choose|i: int| 0 <= i < 16 && #[trigger] desc[i].len == 0 && forall|j: int| 0 <= j < i ==> desc[j].len != 0)
    } else {
        None
    }
}

impl Virtq {
    /// An empty queue with queue index `idx`, placed in `VIRTQ_PAGES` zeroed
    /// pages taken from the page allocator; `used_idx` is the address of the
    /// used ring's index there. Also returns the register writes that announce
    /// the queue to the device, for the caller to carry out.
    pub fn new(idx: u32, mem: &mut PhysMem) -> (r: (Virtq, Vec<MmioWrite>))
        requires
            old(mem)@.wf(),
            old(mem)@.next + 4096 * VIRTQ_PAGES <= old(mem)@.end(),
        ensures
            final(mem)@.wf(),
            final(mem)@.base == old(mem)@.base,
            final(mem)@.next == old(mem)@.next + 4096 * VIRTQ_PAGES,
            final(mem)@.bytes.len() == old(mem)@.bytes.len(),
            forall|k: int|
                0 <= k < final(mem)@.bytes.len() ==> #[trigger] final(mem)@.bytes[k] == if old(mem)@.next
                    - old(mem)@.base <= k < final(mem)@.next - old(mem)@.base {
                    0u8
                } else {
                    old(mem)@.bytes[k]
                },
            r.0.idx == idx,
            r.0.used_idx == old(mem)@.next + VIRTQ_USED_IDX_OFFSET,
            r.0.last_used_idx == 0,
            r.0.avail.idx == 0,
            r.0.avail.flags == 0,
            r.0.avail.used_event == 0,
            r.0.used.idx == 0,
            r.0.used.flags == 0,
            r.0.used.avail_event == 0,
            forall|i: int| 0 <= i < 16 ==> #[trigger] r.0.desc@[i] == (VirtqDesc { addr: 0, len: 0, flags: 0, next: 0 }),
            forall|i: int| 0 <= i < 16 ==> #[trigger] r.0.used.ring@[i] == (VirtqUsedElem { id: 0, len: 0 }),
            forall|i: int| 0 <= i < 16 ==> #[trigger] r.0.avail.ring@[i] == 0,
            r.1@ == queue_setup(idx, old(mem)@.next as u64),
    {
        let paddr: u64 = alloc_pages(mem, VIRTQ_PAGES);
        let d = VirtqDesc { addr: 0, len: 0, flags: 0, next: 0 };
        let u = VirtqUsedElem { id: 0, len: 0 };
        let q = Virtq {
            desc: [d; 16],
            avail: VirtqAvail { flags: 0, idx: 0, ring: [0u16; 16], used_event: 0 },
            used: VirtqUsed { flags: 0, idx: 0, ring: [u; 16], avail_event: 0 },
            idx,
            used_idx: paddr + VIRTQ_USED_IDX_OFFSET,
            last_used_idx: 0,
        };
        let mut writes: Vec<MmioWrite> = Vec::new();
        writes.push(MmioWrite { addr: VIRTIO_NET_PADDR + VIRTIO_REG_QUEUE_SEL, value: idx });
        writes.push(MmioWrite { addr: VIRTIO_NET_PADDR + VIRTIO_REG_QUEUE_NUM, value: 16 });
        writes.push(MmioWrite { addr: VIRTIO_NET_PADDR + VIRTIO_REG_QUEUE_ALIGN, value: 0 });
        writes.push(MmioWrite { addr: VIRTIO_NET_PADDR + VIRTIO_REG_QUEUE_PFN, value: paddr as u32 });
        assert(writes@ =~= queue_setup(idx, paddr));
        (q, writes)
    }

    /// Forgets every exchanged buffer: both ring indices and the used ring go
    /// back to zero.
    pub fn reset(&mut self)
        ensures
            final(self).avail.idx == 0,
            final(self).used.idx == 0,
            final(self).last_used_idx == 0,
            forall|i: int| 0 <= i < 16 ==> #[trigger] final(self).used.ring@[i] == (VirtqUsedElem { id: 0, len: 0 }),
            final(self).desc == old(self).desc,
            final(self).avail.ring == old(self).avail.ring,
            final(self).avail.flags == old(self).avail.flags,
            final(self).avail.used_event == old(self).avail.used_event,
            final(self).used.flags == old(self).used.flags,
            final(self).used.avail_event == old(self).used.avail_event,
            final(self).idx == old(self).idx,
            final(self).used_idx == old(self).used_idx,
    {
        self.avail.idx = 0;
        self.used.idx = 0;
        self.used.ring = [VirtqUsedElem { id: 0, len: 0 }; 16];
        self.last_used_idx = 0;
    }

    /// Compares the index of the last collected used entry with `used_idx`,
    /// the address of the device's used index, cut to 16 bits.
    pub fn is_full(&self) -> (r: bool)
        ensures
            r == (self.last_used_idx != self.used_idx as u16),
    {
        self.last_used_idx != self.used_idx as u16
    }

    /// Writes `chain` into the descriptor table from slot 0, links it, and
    /// offers it to the device in the available ring.
    pub fn send(&mut self, chain: &[VirtioChainEntry])
        requires
            1 <= chain@.len() <= VIRTIO_ENTRY,
            old(self).avail.idx < VIRTIO_ENTRY,
        ensures
            forall|i: int|
                0 <= i < 16 ==> #[trigger] final(self).desc@[i] == if i < chain@.len() {
                    sent_desc(chain@, i)
                } else {
                    old(self).desc@[i]
                },
            final(self).avail.ring@ == old(self).avail.ring@.update(old(self).avail.idx as int, 0),
            final(self).avail.idx == old(self).avail.idx + 1,
            final(self).avail.flags == old(self).avail.flags,
            final(self).avail.used_event == old(self).avail.used_event,
            final(self).used == old(self).used,
            final(self).idx == old(self).idx,
            final(self).used_idx == old(self).used_idx,
            final(self).last_used_idx == old(self).last_used_idx,
    {
        let mut desc_idx: usize = 0;
        let avail_idx: usize = self.avail.idx as usize;
        while desc_idx < chain.len()
            invariant
                desc_idx <= chain@.len() <= 16,
                self.avail == old(self).avail,
                self.used == old(self).used,
                self.idx == old(self).idx,
                self.used_idx == old(self).used_idx,
                self.last_used_idx == old(self).last_used_idx,
                forall|i: int|
                    0 <= i < 16 ==> #[trigger] self.desc@[i] == if i < desc_idx {
                        VirtqDesc {
                            addr: chain@[i].addr,
                            len: chain@[i].len,
                            flags: if chain@[i].writeable {
                                2
                            } else {
                                1
                            },
                            next: (i + 1) as u16,
                        }
                    } else {
                        old(self).desc@[i]
                    },
            decreases chain@.len() - desc_idx,
        {
            let entry: VirtioChainEntry = chain[desc_idx];
            let flags: u16 = if entry.writeable {
                2
            } else {
                1
            };
            self.desc[desc_idx] = VirtqDesc {
                addr: entry.addr,
                len: entry.len,
                flags,
                next: (desc_idx + 1) as u16,
            };
            desc_idx = desc_idx + 1;
        }
        let mut last: VirtqDesc = self.desc[desc_idx - 1];
        last.next = 0;
        self.desc[desc_idx - 1] = last;
        self.avail.ring[avail_idx] = 0;
        self.avail.idx = self.avail.idx + 1;
    }

    /// Collects the chains that the device has marked used since the last
    /// call: one entry per used-ring entry with a nonzero id, or nothing.
    pub fn recv(&mut self) -> (r: Option<Vec<VirtioChainEntry>>)
        requires
            recv_ok(*old(self)),
        ensures
            r is None <==> used_run(old(self).used.ring@, old(self).last_used_idx as int) == 0,
            match r {
                Some(v) => v@ == received(
                    old(self).desc@,
                    used_run(old(self).used.ring@, old(self).last_used_idx as int),
                ),
                None => true,
            },
            final(self).last_used_idx == old(self).last_used_idx + used_run(
                old(self).used.ring@,
                old(self).last_used_idx as int,
            ),
            final(self).desc == old(self).desc,
            final(self).avail == old(self).avail,
            final(self).used == old(self).used,
            final(self).idx == old(self).idx,
            final(self).used_idx == old(self).used_idx,
    {
        let ghost q0 = *self;
        let ghost run = used_run(q0.used.ring@, q0.last_used_idx as int);
        let mut chain: Vec<VirtioChainEntry> = Vec::new();
        let mut desc_idx: usize = 0;
        while self.used.ring[self.last_used_idx as usize].id != 0
            invariant
                self.desc == q0.desc,
                self.avail == q0.avail,
                self.used == q0.used,
                self.idx == q0.idx,
                self.used_idx == q0.used_idx,
                recv_ok(q0),
                run == used_run(q0.used.ring@, q0.last_used_idx as int),
                q0.last_used_idx <= self.last_used_idx,
                self.last_used_idx - q0.last_used_idx <= run,
                chain@.len() == self.last_used_idx - q0.last_used_idx,
                used_run(q0.used.ring@, self.last_used_idx as int) == run - chain@.len(),
                chain@ == received(q0.desc@, chain@.len()),
                chain@.len() == 0 ==> desc_idx == 0,
                chain@.len() > 0 ==> desc_idx == walk_end(q0.desc@, 0, 16),
                desc_idx < 16,
                self.last_used_idx < 16,
            decreases run - chain@.len(),
        {
            let start: usize = desc_idx;
            let mut desc: VirtqDesc = self.desc[desc_idx];
            let addr: u64 = desc.addr;
            let mut len: u32 = desc.len;
            let ghost mut fuel: nat = 16;
            proof {
                assert(run > 0);
                if chain@.len() > 0 {
                    lemma_chain_walk(q0.desc@, 0, 16);
                    assert(chain_walk(q0.desc@, start as int, 16) == Some(
                        (start as int, q0.desc@[start as int].len as int),
                    ));
                }
            }
            while desc.next != 0
                invariant
                    self.desc == q0.desc,
                    desc_idx < 16,
                    desc == q0.desc@[desc_idx as int],
                    chain_walk(q0.desc@, start as int, 16) is Some,
                    walk_sum(q0.desc@, start as int, 16) <= u32::MAX,
                    chain_walk(q0.desc@, desc_idx as int, fuel) is Some,
                    walk_end(q0.desc@, desc_idx as int, fuel) == walk_end(q0.desc@, start as int, 16),
                    len + walk_sum(q0.desc@, desc_idx as int, fuel) - desc.len == walk_sum(
                        q0.desc@,
                        start as int,
                        16,
                    ),
                decreases fuel,
            {
                proof {
                    lemma_chain_walk(q0.desc@, desc.next as int, (fuel - 1) as nat);
                }
                desc_idx = desc.next as usize;
                desc = self.desc[desc_idx];
                len = len + desc.len;
                proof {
                    fuel = (fuel - 1) as nat;
                }
            }
            chain.push(VirtioChainEntry { idx: 0, addr, len, writeable: false });
            self.last_used_idx = self.last_used_idx + 1;
        }
        if chain.len() == 0 {
            None
        } else {
            Some(chain)
        }
    }

    /// Claims the first descriptor with no length set: gives it the length
    /// `VIRTIO_ENTRY` and reports its buffer address.
    pub fn alloc_dmabuf(&mut self, paddr: &mut u64) -> (r: Result<(), u32>)
        ensures
            match first_free_desc(old(self).desc@) {
                Some(i) => {
                    &&& r is Ok
                    &&& *final(paddr) == old(self).desc@[i].addr
                    &&& final(self).desc@ == old(self).desc@.update(
                        i,
                        VirtqDesc { len: VIRTIO_ENTRY as u32, ..old(self).desc@[i] },
                    )
                },
                None => {
                    &&& r == Err::<(), u32>(VIRTIO_ERR_NO_BUF)
                    &&& *final(paddr) == *old(paddr)
                    &&& final(self).desc == old(self).desc
                },
            },
            final(self).avail == old(self).avail,
            final(self).used == old(self).used,
            final(self).idx == old(self).idx,
            final(self).used_idx == old(self).used_idx,
            final(self).last_used_idx == old(self).last_used_idx,
    {
        let mut i: usize = 0;
        while i < VIRTIO_ENTRY
            invariant
                i <= 16,
                *self == *old(self),
                *paddr == *old(paddr),
                forall|j: int| 0 <= j < i ==> #[trigger] self.desc@[j].len != 0,
            decreases 16 - i,
        {
            if self.desc[i].len == 0 {
                let mut d: VirtqDesc = self.desc[i];
                d.len = VIRTIO_ENTRY as u32;
                *paddr = d.addr;
                self.desc[i] = d;
                proof {
                    let f = first_free_desc(old(self).desc@);
                    assert(old(self).desc@[i as int].len == 0);
                    let k = choose|k: int|
                        0 <= k < 16 && #[trigger] old(self).desc@[k].len == 0 && forall|j: int|
                            0 <= j < k ==> old(self).desc@[j].len != 0;
                    assert(k == i);
                    assert(self.desc@ =~= old(self).desc@.update(
                        i as int,
                        VirtqDesc { len: VIRTIO_ENTRY as u32, ..old(self).desc@[i as int] },
                    ));
                }
                return Ok(());
            }
            i = i + 1;
        }
        Err(VIRTIO_ERR_NO_BUF)
    }
}

/// Sends `payload` on the transmit queue `txq`: a payload longer than
/// `VIRTIO_NET_MAX_PACKET_SIZE` is refused with `VIRTIO_ERR_TOO_LARGE`;
/// otherwise a free descriptor's buffer is claimed and a one-entry chain
/// holding a packet header of `VIRTIO_NET_HDR_SIZE` bytes is offered to the device.
pub fn virtio_net_transmit(txq: &mut Virtq, payload: &[u8]) -> (r: Result<(), u32>)
    requires
        payload@.len() <= VIRTIO_NET_MAX_PACKET_SIZE ==> first_free_desc(old(txq).desc@) is Some
            && old(txq).avail.idx < VIRTIO_ENTRY,
    ensures
        payload@.len() > VIRTIO_NET_MAX_PACKET_SIZE ==> r == Err::<(), u32>(VIRTIO_ERR_TOO_LARGE)
            && *final(txq) == *old(txq),
        payload@.len() <= VIRTIO_NET_MAX_PACKET_SIZE ==> {
            let i = first_free_desc(old(txq).desc@).unwrap();
            &&& r is Ok
            &&& final(txq).desc@ == old(txq).desc@.update(
                i,
                VirtqDesc { len: VIRTIO_ENTRY as u32, ..old(txq).desc@[i] },
            ).update(0, VirtqDesc { addr: old(txq).desc@[i].addr, len: VIRTIO_NET_HDR_SIZE, flags: 1, next: 0 })
            &&& final(txq).avail.ring@ == old(txq).avail.ring@.update(old(txq).avail.idx as int, 0)
            &&& final(txq).avail.idx == old(txq).avail.idx + 1
            &&& final(txq).avail.flags == old(txq).avail.flags
            &&& final(txq).avail.used_event == old(txq).avail.used_event
            &&& final(txq).used == old(txq).used
            &&& final(txq).idx == old(txq).idx
            &&& final(txq).used_idx == old(txq).used_idx
            &&& final(txq).last_used_idx == old(txq).last_used_idx
        },
{
    if payload.len() > VIRTIO_NET_MAX_PACKET_SIZE {
        return Err(VIRTIO_ERR_TOO_LARGE);
    }
    let mut paddr: u64 = 0;
    let _ = txq.alloc_dmabuf(&mut paddr);
    let chain: [VirtioChainEntry; 1] = [
        VirtioChainEntry { idx: 0, addr: paddr, len: VIRTIO_NET_HDR_SIZE, writeable: false },
    ];
    let ghost mid = *txq;
    txq.send(&chain);
    proof {
        let i = first_free_desc(old(txq).desc@).unwrap();
        assert(txq.desc@ =~= mid.desc@.update(
            0,
            VirtqDesc { addr: mid.desc@[i].addr, len: VIRTIO_NET_HDR_SIZE, flags: 1, next: 0 },
        ));
    }
    Ok(())
}

/// The first unused buffer slot among the first `n` slots.
pub open spec fn first_free_buf(used: Seq<bool>, n: int) -> Option<int> {
    if exists|i: int| 0 <= i < n && !#[trigger] used[i] {
        Some(choose|i: int| 0 <= i < n && !#[trigger] used[i] && forall|j: int| 0 <= j < i ==> used[j])
    } else {
        None
    }
}

/// A region of `num_entries` DMA buffers of `entry_size` bytes each, at
/// physical address `paddr` and virtual address `vaddr`, with a flag per
/// buffer that is set while it is handed out.
pub struct Dmabuf {
    pub paddr: u64,
    pub vaddr: u64,
    pub entry_size: usize,
    pub num_entries: usize,
    pub used: [bool; 16],
}

impl Dmabuf {
    /// `alloc_dmabuf` can run: the scan finds a free buffer before it leaves the
    /// flag array, and the found buffer's address fits.
    pub open spec fn alloc_ok(&self) -> bool {
        let n = if self.num_entries <= 16 { self.num_entries as int } else { 16 };
        match first_free_buf(self.used@, n) {
            Some(i) => i * self.entry_size <= usize::MAX && self.paddr + i * self.entry_size
                <= u64::MAX,
            None => self.num_entries <= 16,
        }
    }

    /// Hands out the first free buffer and reports its physical address;
    /// `VIRTIO_ERR_NO_BUF` when every buffer is in use.
    pub fn alloc_dmabuf(&mut self, paddr: &mut u64) -> (r: Result<(), u32>)
        requires
            old(self).alloc_ok(),
        ensures
            final(self).paddr == old(self).paddr,
            final(self).vaddr == old(self).vaddr,
            final(self).entry_size == old(self).entry_size,
            final(self).num_entries == old(self).num_entries,
            final(self).used@ == call_flags(
                old(self).paddr as int,
                old(self).entry_size as int,
                old(self).num_entries as int,
                old(self).used@,
                BufCall::Alloc,
            ),
            match first_free_buf(old(self).used@, old(self).num_entries as int) {
                Some(i) => {
                    &&& r is Ok
                    &&& final(self).used@ == old(self).used@.update(i, true)
                    &&& *final(paddr) == old(self).paddr + i * old(self).entry_size
                },
                None => {
                    &&& r == Err::<(), u32>(VIRTIO_ERR_NO_BUF)
                    &&& final(self).used == old(self).used
                    &&& *final(paddr) == *old(paddr)
                },
            },
    {
        let mut i: usize = 0;
        while i < self.num_entries
            invariant
                i <= self.num_entries,
                *self == *old(self),
                *paddr == *old(paddr),
                old(self).alloc_ok(),
                forall|j: int| 0 <= j < i ==> #[trigger] self.used@[j],
            decreases self.num_entries - i,
        {
            proof {
                if i >= 16 {
                    assert(first_free_buf(self.used@, 16) is None);
                }
            }
            if !self.used[i] {
                proof {
                    let n = if self.num_entries <= 16 { self.num_entries as int } else { 16 };
                    assert(!self.used@[i as int]);
                    let k = choose|k: int|
                        0 <= k < n && !#[trigger] self.used@[k] && forall|j: int| 0 <= j < k ==> self.used@[j];
                    assert(k == i);
                    let k2 = choose|k: int|
                        0 <= k < self.num_entries && !#[trigger] self.used@[k] && forall|j: int|
                            0 <= j < k ==> self.used@[j];
                    assert(k2 == i);
                }
                self.used[i] = true;
                let offset: usize = i * self.entry_size;
                let tmp: u64 = self.paddr + offset as u64;
                *paddr = tmp;
                return Ok(());
            }
            i = i + 1;
        }
        Err(VIRTIO_ERR_NO_BUF)
    }

    /// Takes back the buffer that holds physical address `paddr`.
    pub fn free_dmabuf(&mut self, paddr: u64)
        requires
            old(self).paddr <= paddr,
            old(self).entry_size > 0,
            (paddr - old(self).paddr) / (old(self).entry_size as int) < 16,
        ensures
            final(self).used@ == old(self).used@.update(
                (paddr - old(self).paddr) / (old(self).entry_size as int),
                false,
            ),
            final(self).used@ == call_flags(
                old(self).paddr as int,
                old(self).entry_size as int,
                old(self).num_entries as int,
                old(self).used@,
                BufCall::Free(paddr),
            ),
            final(self).paddr == old(self).paddr,
            final(self).vaddr == old(self).vaddr,
            final(self).entry_size == old(self).entry_size,
            final(self).num_entries == old(self).num_entries,
    {
        let offset: u64 = paddr - self.paddr;
        let i: u64 = offset / (self.entry_size as u64);
        self.used[i as usize] = false;
    }

    /// The virtual address of physical address `paddr` inside the region, or
    /// `VIRTIO_ERR_OUT_OF_INDEX` outside it.
    pub fn p2v(&self, paddr: u64) -> (r: Result<u64, u32>)
        requires
            paddr >= self.paddr ==> self.paddr + self.entry_size * self.num_entries <= u64::MAX,
            paddr >= self.paddr && paddr < self.paddr + self.entry_size * self.num_entries ==> self.vaddr
                + (paddr - self.paddr) <= u64::MAX,
        ensures
            r == if paddr < self.paddr || paddr >= self.paddr + self.entry_size * self.num_entries {
                Err::<u64, u32>(VIRTIO_ERR_OUT_OF_INDEX)
            } else {
                Ok((self.vaddr + (paddr - self.paddr)) as u64)
            },
    {
        if paddr < self.paddr {
            return Err(VIRTIO_ERR_OUT_OF_INDEX);
        }
        proof {
            assert(self.entry_size * self.num_entries >= 0) by (nonlinear_arith);
        }
        let size: u64 = self.entry_size as u64 * self.num_entries as u64;
        if paddr >= self.paddr + size {
            return Err(VIRTIO_ERR_OUT_OF_INDEX);
        }
        Ok(self.vaddr + (paddr - self.paddr))
    }
}

/// Freeing the buffer that `alloc_dmabuf` handed out restores the flags it had
/// before, and the buffer's address lies inside the region that `p2v` translates.
pub proof fn lemma_free_undoes_alloc(base: u64, entry_size: usize, num_entries: usize, used: Seq<bool>, i: int)
    requires
        entry_size > 0,
        0 <= i < num_entries,
        i < used.len(),
        !used[i],
    ensures
        ((base + i * entry_size) - base) / (entry_size as int) == i,
        used.update(i, true).update(((base + i * entry_size) - base) / (entry_size as int), false)
            == used,
        base <= base + i * entry_size < base + entry_size * num_entries,
{
    vstd::arithmetic::div_mod::lemma_div_multiples_vanish(i, entry_size as int);
    assert(i * entry_size == entry_size * i) by (nonlinear_arith);
    assert(entry_size * i + entry_size <= entry_size * num_entries) by (nonlinear_arith)
        requires
            i + 1 <= num_entries,
            entry_size > 0,
    ;
    assert(entry_size * i >= 0) by (nonlinear_arith)
        requires
            i >= 0,
            entry_size > 0,
    ;
    assert(used.update(i, true).update(i, false) =~= used);
}

/// A call on a region's buffer flags: an allocation, or a free of the buffer
/// at an address.
pub enum BufCall {
    Alloc,
    Free(u64),
}

/// Address of buffer `i` of a region of buffers of `size` bytes at `base`.
pub open spec fn buf_at(base: int, size: int, i: int) -> int {
    base + i * size
}

/// The flags `used` after one call on a region of `n` buffers of `size` bytes
/// at `base`, as `alloc_dmabuf` and `free_dmabuf` change them.
pub open spec fn call_flags(base: int, size: int, n: int, used: Seq<bool>, c: BufCall) -> Seq<bool> {
    match c {
        BufCall::Alloc => match first_free_buf(used, n) {
            Some(i) => used.update(i, true),
            None => used,
        },
        BufCall::Free(p) => used.update((p - base) / size, false),
    }
}

/// The addresses handed out and not freed, after one call from flags `used`
/// and outstanding addresses `out`.
pub open spec fn call_out(base: int, size: int, n: int, used: Seq<bool>, out: Set<int>, c: BufCall) -> Set<int> {
    match c {
        BufCall::Alloc => match first_free_buf(used, n) {
            Some(i) => out.insert(buf_at(base, size, i)),
            None => out,
        },
        BufCall::Free(p) => out.remove(p as int),
    }
}

/// The flags and the outstanding addresses after `calls`, starting from flags
/// `used` with nothing handed out.
pub open spec fn replay(base: int, size: int, n: int, used: Seq<bool>, calls: Seq<BufCall>) -> (Seq<bool>, Set<int>)
    decreases calls.len(),
{
    if calls.len() == 0 {
        (used, Set::empty())
    } else {
        let (u, o) = replay(base, size, n, used, calls.drop_last());
        (call_flags(base, size, n, u, calls.last()), call_out(base, size, n, u, o, calls.last()))
    }
}

/// Every free in `calls` is given an address that is out at that point.
pub open spec fn frees_outstanding(base: int, size: int, n: int, used: Seq<bool>, calls: Seq<BufCall>) -> bool {
    forall|k: int|
        0 <= k < calls.len() ==> match #[trigger] calls[k] {
            BufCall::Free(p) => replay(base, size, n, used, calls.take(k)).1.contains(p as int),
            BufCall::Alloc => true,
        }
}

/// The flags record exactly the outstanding buffers: a buffer's flag is set
/// iff its address is in `out`, and `out` holds buffer addresses only.
pub open spec fn flags_track(base: int, size: int, n: int, used: Seq<bool>, out: Set<int>) -> bool {
    &&& used.len() == VIRTIO_ENTRY
    &&& forall|i: int| 0 <= i < n ==> (#[trigger] used[i] <==> out.contains(buf_at(base, size, i)))
    &&& forall|a: int| #[trigger] out.contains(a) ==> exists|i: int| 0 <= i < n && a == #[trigger] buf_at(base, size, i)
}

/// Different buffers have different addresses, and a buffer's index comes
/// back from its address.
proof fn lemma_buf_addr(base: int, size: int, i: int, j: int)
    requires
        size > 0,
        0 <= i,
        0 <= j,
    ensures
        buf_at(base, size, i) == buf_at(base, size, j) ==> i == j,
        (buf_at(base, size, i) - base) / size == i,
{
    assert(i * size == j * size ==> i == j) by (nonlinear_arith)
        requires
            size > 0,
    ;
    vstd::arithmetic::div_mod::lemma_div_multiples_vanish(i, size);
    assert(i * size == size * i) by (nonlinear_arith);
}

/// One call keeps the flags tracking the outstanding buffers; an allocation
/// hands out an address that is not out.
proof fn lemma_call_keeps_tracking(base: int, size: int, n: int, used: Seq<bool>, out: Set<int>, c: BufCall)
    requires
        size > 0,
        0 <= n <= VIRTIO_ENTRY,
        flags_track(base, size, n, used, out),
        c matches BufCall::Free(p) ==> out.contains(p as int),
    ensures
        flags_track(base, size, n, call_flags(base, size, n, used, c), call_out(base, size, n, used, out, c)),
        c is Alloc ==> match first_free_buf(used, n) {
            Some(i) => !out.contains(buf_at(base, size, i)),
            None => true,
        },
{
    let used2 = call_flags(base, size, n, used, c);
    let out2 = call_out(base, size, n, used, out, c);
    match c {
        BufCall::Alloc => {
            match first_free_buf(used, n) {
                Some(i) => {
                    assert(0 <= i < n && !used[i]);
                    if out.contains(buf_at(base, size, i)) {
                        let j = choose|j: int| 0 <= j < n && buf_at(base, size, i) == buf_at(base, size, j);
                        lemma_buf_addr(base, size, i, j);
                        assert(used[j]);
                    }
                    assert forall|k: int| 0 <= k < n implies (#[trigger] used2[k] <==> out2.contains(
                        buf_at(base, size, k),
                    )) by {
                        lemma_buf_addr(base, size, i, k);
                        assert(used[k] <==> out.contains(buf_at(base, size, k)));
                    }
                    assert forall|a: int| #[trigger] out2.contains(a) implies exists|k: int|
                        0 <= k < n && a == #[trigger] buf_at(base, size, k) by {
                        if a != buf_at(base, size, i) {
                            assert(out.contains(a));
                        }
                    }
                },
                None => {},
            }
        },
        BufCall::Free(p) => {
            let i = choose|i: int| 0 <= i < n && p == buf_at(base, size, i);
            lemma_buf_addr(base, size, i, i);
            assert forall|k: int| 0 <= k < n implies (#[trigger] used2[k] <==> out2.contains(
                buf_at(base, size, k),
            )) by {
                lemma_buf_addr(base, size, i, k);
                assert(used[k] <==> out.contains(buf_at(base, size, k)));
            }
            assert forall|a: int| #[trigger] out2.contains(a) implies exists|k: int|
                0 <= k < n && a == #[trigger] buf_at(base, size, k) by {
                assert(out.contains(a));
            }
        },
    }
}

/// Across any sequence of allocations and frees, each free given an address
/// that is out, the flags record exactly the buffers handed out and not freed
/// since, and no allocation hands out an address that is still out.
pub proof fn lemma_dmabuf_calls(base: int, size: int, n: int, used: Seq<bool>, calls: Seq<BufCall>)
    requires
        size > 0,
        0 <= n <= VIRTIO_ENTRY,
        used.len() == VIRTIO_ENTRY,
        forall|i: int| 0 <= i < n ==> !#[trigger] used[i],
        frees_outstanding(base, size, n, used, calls),
    ensures
        flags_track(base, size, n, replay(base, size, n, used, calls).0, replay(base, size, n, used, calls).1),
        forall|k: int|
            0 <= k < calls.len() && #[trigger] calls[k] is Alloc ==> match first_free_buf(
                replay(base, size, n, used, calls.take(k)).0,
                n,
            ) {
                Some(i) => !replay(base, size, n, used, calls.take(k)).1.contains(buf_at(base, size, i)),
                None => true,
            },
    decreases calls.len(),
{
    if calls.len() == 0 {
        assert(flags_track(base, size, n, used, Set::empty()));
    } else {
        let pre = calls.drop_last();
        assert forall|k: int| 0 <= k < pre.len() implies match #[trigger] pre[k] {
            BufCall::Free(p) => replay(base, size, n, used, pre.take(k)).1.contains(p as int),
            BufCall::Alloc => true,
        } by {
            assert(pre.take(k) =~= calls.take(k));
            assert(pre[k] == calls[k]);
        }
        lemma_dmabuf_calls(base, size, n, used, pre);
        let k = calls.len() - 1;
        assert(calls.take(k) =~= pre);
        assert(calls[k] == calls.last());
        let (u, o) = replay(base, size, n, used, pre);
        lemma_call_keeps_tracking(base, size, n, u, o, calls.last());
        assert forall|j: int|
            0 <= j < calls.len() && #[trigger] calls[j] is Alloc implies match first_free_buf(
                replay(base, size, n, used, calls.take(j)).0,
                n,
            ) {
                Some(i) => !replay(base, size, n, used, calls.take(j)).1.contains(buf_at(base, size, i)),
                None => true,
            } by {
            if j < k {
                assert(pre.take(j) =~= calls.take(j));
                assert(pre[j] == calls[j]);
            }
        }
    }
}

/// Offset of the device-status register of a virtio MMIO device.
pub const VIRTIO_REG_DEVICE_STATUS: u64 = 0x70;

/// Device-status bits: the driver has seen the device, knows how to drive it,
/// has the queues running, and has accepted the device's features.
pub const VIRTIO_STATUS_ACK: u32 = 1;
pub const VIRTIO_STATUS_DRIVER: u32 = 2;
pub const VIRTIO_STATUS_DRIVER_OK: u32 = 4;
pub const VIRTIO_STATUS_FEAT_OK: u32 = 8;

/// Pages that the network request buffer takes from the page allocator: its
/// 12-byte header and 1500-byte payload fit in one.
pub const VIRTIO_NET_REQ_PAGES: u64 = 1;

/// Where the driver stands in bringing the network card up. The MAC address is
/// read and the queues are set up between `DriverOk` being reached and its
/// step being taken.
#[derive(Clone, Copy, Debug, PartialEq, Eq, Structural)]
pub enum NetInit {
    Reset,
    Acknowledge,
    Driver,
    FeaturesOk,
    DriverOk,
    Done,
}

/// The write of `value` to the network card's device-status register.
pub open spec fn status_write(value: u32) -> MmioWrite {
    MmioWrite { addr: (VIRTIO_NET_PADDR + VIRTIO_REG_DEVICE_STATUS) as u64, value }
}

/// One step of the network card's status handshake: from `stage`, with
/// `status` the value the status register reads now, the write to make and
/// the next stage. The register is first cleared; the acknowledge, driver and
/// features-accepted bits are each ORed into the value read back; once the
/// queues are set up the register is set to driver-ready alone.
pub fn net_init_step(stage: NetInit, status: u32) -> (r: (NetInit, MmioWrite))
    requires
        !(stage is Done),
    ensures
        r == match stage {
            NetInit::Reset => (NetInit::Acknowledge, status_write(0)),
            NetInit::Acknowledge => (NetInit::Driver, status_write(status | VIRTIO_STATUS_ACK)),
            NetInit::Driver => (NetInit::FeaturesOk, status_write(status | VIRTIO_STATUS_DRIVER)),
            NetInit::FeaturesOk => (NetInit::DriverOk, status_write(status | VIRTIO_STATUS_FEAT_OK)),
            _ => (NetInit::Done, status_write(VIRTIO_STATUS_DRIVER_OK)),
        },
{
    let addr: u64 = VIRTIO_NET_PADDR + VIRTIO_REG_DEVICE_STATUS;
    match stage {
        NetInit::Reset => (NetInit::Acknowledge, MmioWrite { addr, value: 0 }),
        NetInit::Acknowledge => (NetInit::Driver, MmioWrite { addr, value: status | VIRTIO_STATUS_ACK }),
        NetInit::Driver => (NetInit::FeaturesOk, MmioWrite { addr, value: status | VIRTIO_STATUS_DRIVER }),
        NetInit::FeaturesOk => (NetInit::DriverOk, MmioWrite { addr, value: status | VIRTIO_STATUS_FEAT_OK }),
        _ => (NetInit::Done, MmioWrite { addr, value: VIRTIO_STATUS_DRIVER_OK }),
    }
}

/// Magic value that a virtio MMIO device shows in its first register.
pub const VIRTIO_MAGIC: u32 = 0x74726976;

/// Device id of a network card.
pub const VIRTIO_DEVICE_NET: u32 = 1;

/// The device registers identify a legacy (version 1) virtio network card,
/// the only device the driver sets up.
pub fn device_is_virtio_net(magic: u32, version: u32, device_id: u32) -> (r: bool)
    ensures
        r == (magic == VIRTIO_MAGIC && version == 1 && device_id == VIRTIO_DEVICE_NET),
{
    magic == VIRTIO_MAGIC && version == 1 && device_id == VIRTIO_DEVICE_NET
}

/// A register write for the caller to carry out.
#[derive(Clone, Copy, Debug)]
pub struct MmioWrite {
    pub addr: u64,
    pub value: u32,
}

/// A virtio MMIO device: its register base, its queue count and the physical
/// addresses of its queues.
pub struct VirtioMmio {
    pub base: u64,
    pub num_queues: u32,
    pub queues: Vec<u64>,
}

impl VirtioMmio {
    /// The write that tells the device to look at queue `idx`.
    pub fn notify(&self, idx: u32) -> (w: MmioWrite)
        requires
            self.base + VIRTIO_REG_QUEUE_NOTIFY + 4 * idx <= u64::MAX,
        ensures
            w.addr == self.base + VIRTIO_REG_QUEUE_NOTIFY + 4 * idx,
            w.value == 0,
    {
        MmioWrite { addr: self.base + VIRTIO_REG_QUEUE_NOTIFY + 4 * (idx as u64), value: 0 }
    }
}

} // verus!
