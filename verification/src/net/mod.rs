use vstd::prelude::*;

pub mod arp;

verus! {

/// An Ethernet hardware address.
pub type MacAddr = [u8; 6];

/// An IPv4 address, most significant byte first.
pub type Ipv4Addr = [u8; 4];

/// EtherType of IPv4, the protocol type that ARP resolves.
pub const ARP_PRO_IP: u16 = 0x0800;

} // verus!
