use amia::net::arp::{ArpEther, Operation, ARP_HDR_ETHER};
use amia::net::ARP_PRO_IP;

#[test]
fn arp_request_asks_for_target() {
    let mac = [0x52, 0x54, 0x00, 0x12, 0x34, 0x56];
    let r = ArpEther::request(mac, [10, 0, 2, 15], [10, 0, 2, 2]);
    assert_eq!(r.hdr.htype, ARP_HDR_ETHER);
    assert_eq!(r.hdr.htype, 1);
    assert_eq!(r.hdr.ptype, ARP_PRO_IP);
    assert_eq!(r.hdr.ptype, 0x0800);
    assert_eq!(r.hdr.hlen, 6);
    assert_eq!(r.hdr.plen, 4);
    assert_eq!(r.hdr.op, Operation::ArpRequest);
    assert_eq!(r.hdr.op.code(), 1);
    assert_eq!(r.mac_src, mac);
    assert_eq!(r.ip_src, [10, 0, 2, 15]);
    assert_eq!(r.mac_target, [0; 6]);
    assert_eq!(r.ip_target, [10, 0, 2, 2]);
}

#[test]
fn arp_operation_codes() {
    assert_eq!(Operation::ArpRequest.code(), 1);
    assert_eq!(Operation::ArpResponse.code(), 2);
}
