use vstd::prelude::*;
use crate::constants::{VIRTIO_ENTRY, VIRTIO_ERR_TOO_LARGE, VIRTIO_NET_MAX_PACKET_SIZE};
use crate::virtio::{first_free_buf, Dmabuf, VirtioChainEntry, Virtq, VirtqDesc, VIRTIO_NET_HDR_SIZE};

verus! {

/// The virtio-net device configuration space.
#[derive(Clone, Copy, Debug)]
pub struct virtio_net_config {
    pub mac: [u8; 6],
    pub status: u16,
    pub max_vq_pairs: u16,
}

/// The header in front of every virtio-net packet.
#[derive(Clone, Copy, Debug)]
pub struct virtio_net_hdr {
    pub flags: u8,
    pub gso_type: u8,
    pub hdr_len: u16,
    pub gso_size: u16,
    pub csum_start: u16,
    pub csum_offset: u16,
    pub num_buffers: u16,
}

/// A control-queue command.
#[derive(Clone, Copy, Debug)]
pub struct virtio_net_ctrl {
    pub class: u8,
    pub cmd: u8,
    pub data: [u8; 6],
    pub ack: u8,
}

/// The MAC-table argument of a control command.
#[derive(Clone, Copy, Debug)]
pub struct virtio_net_ctrl_mac {
    pub entries: u32,
    pub mac: [u8; 6],
}

/// The multiqueue argument of a control command.
#[derive(Clone, Copy, Debug)]
pub struct virtio_net_ctrl_mq {
    pub virtqueue_pairs: u16,
}

/// A transmit request: header and payload.
#[derive(Clone, Copy, Debug)]
pub struct virtio_net_req {
    pub header: virtio_net_hdr,
    pub payload: [u8; 1500],
}

impl virtio_net_req {
    /// Sends `payload` through the buffer region `txbuf` on the transmit queue
    /// `txq`: a payload longer than `VIRTIO_NET_MAX_PACKET_SIZE` is refused with
    /// `VIRTIO_ERR_TOO_LARGE`; otherwise the first free buffer is claimed and a
    /// one-entry chain holding a packet header at its address is offered to the
    /// device.
    pub fn transmit(&self, payload: &[u8], txbuf: &mut Dmabuf, txq: &mut Virtq) -> (r: Result<
        (),
        u32,
    >)
        requires
            payload@.len() <= VIRTIO_NET_MAX_PACKET_SIZE ==> {
                &&& old(txbuf).alloc_ok()
                &&& first_free_buf(old(txbuf).used@, old(txbuf).num_entries as int) is Some
                &&& old(txq).avail.idx < VIRTIO_ENTRY
            },
        ensures
            payload@.len() > VIRTIO_NET_MAX_PACKET_SIZE ==> r == Err::<(), u32>(VIRTIO_ERR_TOO_LARGE)
                && *final(txbuf) == *old(txbuf) && *final(txq) == *old(txq),
            payload@.len() <= VIRTIO_NET_MAX_PACKET_SIZE ==> {
                let i = first_free_buf(old(txbuf).used@, old(txbuf).num_entries as int).unwrap();
                &&& r is Ok
                &&& final(txbuf).used@ == old(txbuf).used@.update(i, true)
                &&& final(txbuf).paddr == old(txbuf).paddr
                &&& final(txbuf).vaddr == old(txbuf).vaddr
                &&& final(txbuf).entry_size == old(txbuf).entry_size
                &&& final(txbuf).num_entries == old(txbuf).num_entries
                &&& final(txq).desc@ == old(txq).desc@.update(
                    0,
                    VirtqDesc {
                        addr: (old(txbuf).paddr + i * old(txbuf).entry_size) as u64,
                        len: VIRTIO_NET_HDR_SIZE,
                        flags: 1,
                        next: 0,
                    },
                )
                &&& final(txq).avail.ring@ == old(txq).avail.ring@.update(old(txq).avail.idx as int, 0)
                &&& final(txq).avail.idx == old(txq).avail.idx + 1
                &&& final(txq).avail.flags == old(txq).avail.flags
                &&& final(txq).avail.used_event == old(txq).avail.used_event
                &&& final(txq).idx == old(txq).idx
                &&& final(txq).used_idx == old(txq).used_idx
                &&& final(txq).used == old(txq).used
                &&& final(txq).last_used_idx == old(txq).last_used_idx
            },
    {
        if payload.len() > VIRTIO_NET_MAX_PACKET_SIZE {
            return Err(VIRTIO_ERR_TOO_LARGE);
        }
        let mut paddr: u64 = 0;
        let _ = txbuf.alloc_dmabuf(&mut paddr);
        let chain: [VirtioChainEntry; 1] = [
            VirtioChainEntry { idx: 0, addr: paddr, len: VIRTIO_NET_HDR_SIZE, writeable: false },
        ];
        let ghost mid = *txq;
        txq.send(&chain);
        proof {
            assert(txq.desc@ =~= mid.desc@.update(
                0,
                VirtqDesc { addr: paddr, len: VIRTIO_NET_HDR_SIZE, flags: 1, next: 0 },
            ));
        }
        Ok(())
    }
}

} // verus!
