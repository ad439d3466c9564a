use vstd::prelude::*;
use crate::net::{Ipv4Addr, MacAddr, ARP_PRO_IP};

verus! {

/// ARP hardware type of Ethernet.
pub const ARP_HDR_ETHER: u16 = 0x0001;

/// The ARP operation.
#[derive(Debug, Clone, Copy, PartialEq, Eq, Structural)]
pub enum Operation {
    ArpRequest,
    ArpResponse,
}

impl Operation {
    /// The operation's code on the wire.
    pub open spec fn spec_code(self) -> u16 {
        match self {
            Operation::ArpRequest => 1,
            Operation::ArpResponse => 2,
        }
    }

    /// The operation's code on the wire.
    pub fn code(&self) -> (c: u16)
        ensures
            c == self.spec_code(),
    {
        match self {
            Operation::ArpRequest => 1,
            Operation::ArpResponse => 2,
        }
    }
}

/// The fixed part of an ARP packet.
#[derive(Debug)]
pub struct ArpHdr {
    pub htype: u16,
    pub ptype: u16,
    pub hlen: u8,
    pub plen: u8,
    pub op: Operation,
}

/// An ARP packet for Ethernet and IPv4.
#[derive(Debug)]
pub struct ArpEther {
    pub hdr: ArpHdr,
    pub mac_src: MacAddr,
    pub ip_src: Ipv4Addr,
    pub mac_target: MacAddr,
    pub ip_target: Ipv4Addr,
}

impl ArpEther {
    /// The request that asks who has `target_ip`, sent by `src_eth` at `src_ip`.
    pub fn request(src_eth: MacAddr, src_ip: Ipv4Addr, target_ip: Ipv4Addr) -> (r: ArpEther)
        ensures
            r.hdr.htype == ARP_HDR_ETHER,
            r.hdr.ptype == ARP_PRO_IP,
            r.hdr.hlen == 6,
            r.hdr.plen == 4,
            r.hdr.op == Operation::ArpRequest,
            r.mac_src == src_eth,
            r.ip_src == src_ip,
            r.mac_target@ == seq![0u8, 0u8, 0u8, 0u8, 0u8, 0u8],
            r.ip_target == target_ip,
    {
        let r = ArpEther {
            hdr: ArpHdr {
                htype: ARP_HDR_ETHER,
                ptype: ARP_PRO_IP,
                hlen: 6,
                plen: 4,
                op: Operation::ArpRequest,
            },
            mac_src: src_eth,
            ip_src: src_ip,
            mac_target: [0u8; 6],
            ip_target: target_ip,
        };
        assert(r.mac_target@ =~= seq![0u8, 0u8, 0u8, 0u8, 0u8, 0u8]);
        r
    }
}

} // verus!
