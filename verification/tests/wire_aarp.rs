//! Address resolution packets.

use appletalk::wire::{Aarp, Addr, Encode};

/// A 28-byte AARP packet: src 65280.128 at 00:05:02:aa:bb:cc,
/// dst 65280.42 with an unknown MAC.
fn aarp(op: u16, extra: &[u8]) -> Vec<u8> {
    let mut p = vec![0x00, 0x01, 0x80, 0x9b, 6, 4];
    p.extend(op.to_be_bytes());
    p.extend([0x00, 0x05, 0x02, 0xaa, 0xbb, 0xcc]);
    p.extend([0x00, 0xff, 0x00, 128]);
    p.extend([0; 6]);
    p.extend([0x00, 0xff, 0x00, 42]);
    p.extend(extra);
    p
}

#[test]
fn aarp_aarp_request() {
    let a = Aarp::parse(&aarp(1, &[])).unwrap();
    assert_eq!(a.dst, Addr { net: 65280, node: 42 });
    assert_eq!(
        a.to_string(),
        "request  65280.128 (00:05:02:aa:bb:cc) > 65280.42 (00:00:00:00:00:00)"
    );
}

#[test]
fn aarp_aarp_probe_ignores_trailing_padding() {
    let a = Aarp::parse(&aarp(3, &[0; 20])).unwrap();
    assert_eq!(a.op_name(), "probe");
}

#[test]
fn aarp_aarp_rejects_short_and_foreign() {
    assert!(Aarp::parse(&aarp(1, &[])[..27]).is_none()); // truncated
    let mut token_ring = aarp(1, &[]);
    token_ring[1] = 0x02; // hardware type != Ethernet
    assert!(Aarp::parse(&token_ring).is_none());
}

#[test]
fn aarp_encodes_known_bytes() {
    let a = Aarp::parse(&aarp(3, &[])).unwrap();
    assert_eq!(a.to_bytes(), aarp(3, &[]));
}

#[test]
fn aarp_round_trips_each_opcode() {
    for op in [1, 2, 3] {
        let a = Aarp::parse(&aarp(op, &[])).unwrap();
        assert_eq!(Aarp::parse(&a.to_bytes()), Some(a), "opcode {op}");
    }
}
