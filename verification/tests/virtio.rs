use amia::constants::{VIRTIO_ERR_NO_BUF, VIRTIO_ERR_OUT_OF_INDEX, VIRTIO_ERR_TOO_LARGE};
use amia::virtio::{
    virtio_net_transmit, Dmabuf, VirtioChainEntry, VirtioMmio, Virtq, VirtqUsedElem,
    VIRTIO_NET_HDR_SIZE, VIRTIO_NET_PADDR,
};
use amia::mem::PhysMem;
use amia::virtio::{net_init_step, NetInit};
use amia::virtio_net::{virtio_net_hdr, virtio_net_req};

fn entry(addr: u64, len: u32, writeable: bool) -> VirtioChainEntry {
    VirtioChainEntry { idx: 0, addr, len, writeable }
}

/// A queue with index `idx` taken from a fresh allocator at 0x8000_0000.
fn queue(idx: u32) -> Virtq {
    let mut mem = PhysMem::new(0x8000_0000, 4 * 4096);
    Virtq::new(idx, &mut mem).0
}

#[test]
fn test_virtq() {
    let mut mem = PhysMem::new(0x8000_0000, 4 * 4096);
    let (virtq, _) = Virtq::new(0, &mut mem);
    assert_eq!(virtq.idx, 0);
}

#[test]
fn virtq_new_takes_zeroed_pages_and_announces_queue() {
    let mut mem = PhysMem::new(0x8000_0000, 4 * 4096);
    mem.write_u64(0x8000_1ff8, 0x77);
    mem.write_u64(0x8000_2000, 0x99);
    let (q, writes) = Virtq::new(1, &mut mem);
    assert_eq!(mem.next_paddr(), 0x8000_2000);
    assert_eq!(mem.read_u64(0x8000_1ff8), 0);
    assert_eq!(mem.read_u64(0x8000_2000), 0x99);
    assert_eq!(q.idx, 1);
    assert_eq!(q.used_idx, 0x8000_0108);
    assert_eq!((q.last_used_idx, q.avail.idx, q.used.idx), (0, 0, 0));
    let got: Vec<(u64, u32)> = writes.iter().map(|w| (w.addr, w.value)).collect();
    assert_eq!(
        got,
        vec![
            (VIRTIO_NET_PADDR + 0x30, 1),
            (VIRTIO_NET_PADDR + 0x38, 16),
            (VIRTIO_NET_PADDR + 0x3c, 0),
            (VIRTIO_NET_PADDR + 0x40, 0x8000_0000),
        ]
    );
    let (q2, w2) = Virtq::new(0, &mut mem);
    assert_eq!(q2.used_idx, 0x8000_2108);
    assert_eq!(w2[3].value, 0x8000_2000);
}

#[test]
fn send_links_chain() {
    let mut q = queue(1);
    q.send(&[entry(0x1000, 10, false), entry(0x2000, 20, true), entry(0x3000, 30, false)]);
    assert_eq!((q.desc[0].addr, q.desc[0].len, q.desc[0].flags, q.desc[0].next), (0x1000, 10, 1, 1));
    assert_eq!((q.desc[1].addr, q.desc[1].len, q.desc[1].flags, q.desc[1].next), (0x2000, 20, 2, 2));
    assert_eq!((q.desc[2].addr, q.desc[2].len, q.desc[2].flags, q.desc[2].next), (0x3000, 30, 1, 0));
    assert_eq!(q.avail.idx, 1);
    assert_eq!(q.avail.ring[0], 0);
}

#[test]
fn recv_collects_used_chains() {
    let mut q = queue(0);
    // `used_idx` cut to 16 bits is 0x108, so the queue reads as full until
    // `last_used_idx` reaches that value.
    assert!(q.is_full());
    assert!(q.recv().is_none());
    q.send(&[entry(0x1000, 10, false), entry(0x2000, 20, false)]);
    q.used.ring[0] = VirtqUsedElem { id: 1, len: 30 };
    q.used.ring[1] = VirtqUsedElem { id: 2, len: 30 };
    q.used.idx = 2;
    let got = q.recv().unwrap();
    assert_eq!(got.len(), 2);
    assert_eq!((got[0].addr, got[0].len), (0x1000, 30));
    assert_eq!((got[1].addr, got[1].len), (0x2000, 20));
    assert_eq!(q.last_used_idx, 2);
    assert!(q.is_full());
    q.last_used_idx = 0x108;
    assert!(!q.is_full());
    q.reset();
    assert_eq!((q.avail.idx, q.used.idx, q.last_used_idx), (0, 0, 0));
    assert!(q.is_full());
    assert_eq!(q.used.ring[0].id, 0);
}

#[test]
fn recv_returns_sent_chain() {
    let mut q = queue(0);
    q.send(&[entry(0x4000, 12, false), entry(0x5000, 1500, true), entry(0x6000, 8, true)]);
    q.used.ring[0] = VirtqUsedElem { id: 7, len: 0 };
    let got = q.recv().unwrap();
    assert_eq!(got.len(), 1);
    assert_eq!((got[0].idx, got[0].addr, got[0].len, got[0].writeable), (0, 0x4000, 1520, false));
    assert_eq!(q.last_used_idx, 1);
    assert!(q.recv().is_none());
}

#[test]
fn virtq_alloc_claims_empty_descriptor() {
    let mut q = queue(0);
    q.desc[0].len = 5;
    q.desc[1].addr = 0xabc0;
    let mut paddr = 0u64;
    assert_eq!(q.alloc_dmabuf(&mut paddr), Ok(()));
    assert_eq!(paddr, 0xabc0);
    assert_eq!(q.desc[1].len, 16);
    for d in q.desc.iter_mut() {
        d.len = 1;
    }
    let mut p2 = 7u64;
    assert_eq!(q.alloc_dmabuf(&mut p2), Err(VIRTIO_ERR_NO_BUF));
    assert_eq!(p2, 7);
}

#[test]
fn transmit_refuses_large_payloads() {
    let mut q = queue(1);
    let big = vec![0u8; 1501];
    assert_eq!(virtio_net_transmit(&mut q, &big), Err(VIRTIO_ERR_TOO_LARGE));
    assert_eq!(q.avail.idx, 0);
    q.desc[3].addr = 0x5000;
    for i in 0..3 {
        q.desc[i].len = 1;
    }
    assert_eq!(virtio_net_transmit(&mut q, b"hello"), Ok(()));
    assert_eq!(q.desc[3].len, 16);
    assert_eq!((q.desc[0].addr, q.desc[0].len, q.desc[0].flags, q.desc[0].next), (0x5000, VIRTIO_NET_HDR_SIZE, 1, 0));
    assert_eq!(q.avail.idx, 1);
    assert_eq!((q.idx, q.used_idx, q.last_used_idx), (1, 0x8000_0108, 0));
    assert_eq!((q.avail.flags, q.avail.used_event), (0, 0));
}

fn dmabuf() -> Dmabuf {
    Dmabuf { paddr: 0x9000_0000, vaddr: 0x4000, entry_size: 2048, num_entries: 4, used: [false; 16] }
}

#[test]
fn dmabuf_alloc_free_translate() {
    let mut d = dmabuf();
    let mut p = 0u64;
    assert_eq!(d.alloc_dmabuf(&mut p), Ok(()));
    assert_eq!(p, 0x9000_0000);
    let mut p2 = 0u64;
    assert_eq!(d.alloc_dmabuf(&mut p2), Ok(()));
    assert_eq!(p2, 0x9000_0800);
    assert_eq!(d.p2v(p2), Ok(0x4800));
    assert_eq!(d.p2v(p2 + 5), Ok(0x4805));
    assert_eq!(d.p2v(0x8fff_ffff), Err(VIRTIO_ERR_OUT_OF_INDEX));
    assert_eq!(d.p2v(0x9000_2000), Err(VIRTIO_ERR_OUT_OF_INDEX));
    d.free_dmabuf(p);
    assert!(!d.used[0]);
    assert!(d.used[1]);
    let mut p3 = 0u64;
    assert_eq!(d.alloc_dmabuf(&mut p3), Ok(()));
    assert_eq!(p3, p);
    let mut q = 0u64;
    d.alloc_dmabuf(&mut q).unwrap();
    d.alloc_dmabuf(&mut q).unwrap();
    assert_eq!(d.alloc_dmabuf(&mut q), Err(VIRTIO_ERR_NO_BUF));
}

#[test]
fn net_request_transmit_uses_buffer() {
    let req = virtio_net_req {
        header: virtio_net_hdr { flags: 0, gso_type: 0, hdr_len: 0, gso_size: 0, csum_start: 0, csum_offset: 0, num_buffers: 0 },
        payload: [0; 1500],
    };
    let mut buf = dmabuf();
    buf.used[0] = true;
    let mut q = queue(1);
    assert_eq!(req.transmit(&[0u8; 1501], &mut buf, &mut q), Err(VIRTIO_ERR_TOO_LARGE));
    assert_eq!(req.transmit(b"ping", &mut buf, &mut q), Ok(()));
    assert!(buf.used[1]);
    assert_eq!(q.desc[0].addr, 0x9000_0800);
    assert_eq!(q.desc[0].len, VIRTIO_NET_HDR_SIZE);
    assert_eq!(q.avail.idx, 1);
}

#[test]
fn mmio_notify_register() {
    let dev = VirtioMmio { base: 0x1000_1000, num_queues: 2, queues: vec![0, 0] };
    let w = dev.notify(1);
    assert_eq!(w.addr, 0x1000_1054);
    assert_eq!(w.value, 0);
}

#[test]
fn identifies_network_card() {
    assert!(amia::virtio::device_is_virtio_net(0x74726976, 1, 1));
    assert!(!amia::virtio::device_is_virtio_net(0x74726976, 2, 1));
    assert!(!amia::virtio::device_is_virtio_net(0x74726976, 1, 2));
    assert!(!amia::virtio::device_is_virtio_net(0, 1, 1));
}

#[test]
fn dmabuf_flags_follow_outstanding_buffers() {
    let mut d = dmabuf();
    let mut out: Vec<u64> = Vec::new();
    let check = |d: &Dmabuf, out: &Vec<u64>| {
        for i in 0..4u64 {
            assert_eq!(d.used[i as usize], out.contains(&(0x9000_0000 + i * 2048)));
        }
    };
    for step in 0..12 {
        if step % 3 == 2 {
            let p = out.remove(0);
            d.free_dmabuf(p);
        } else {
            let mut p = 0u64;
            match d.alloc_dmabuf(&mut p) {
                Ok(()) => {
                    assert!(!out.contains(&p));
                    out.push(p);
                }
                Err(e) => {
                    assert_eq!(e, VIRTIO_ERR_NO_BUF);
                    assert_eq!(out.len(), 4);
                }
            }
        }
        check(&d, &out);
    }
}

#[test]
fn network_card_status_handshake() {
    let status_reg = VIRTIO_NET_PADDR + 0x70;
    let mut status: u32 = 0x40;
    let mut stage = NetInit::Reset;
    let mut seen = Vec::new();
    while stage != NetInit::Done {
        let (next, w) = net_init_step(stage, status);
        assert_eq!(w.addr, status_reg);
        status = w.value;
        seen.push(status);
        stage = next;
    }
    assert_eq!(seen, vec![0, 1, 3, 11, 4]);
    // Bits the device already shows are kept by the ORed steps.
    let (next, w) = net_init_step(NetInit::Driver, 0x81);
    assert!(next == NetInit::FeaturesOk);
    assert_eq!(w.value, 0x83);
}
