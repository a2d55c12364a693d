//! Datagrams.

use appletalk::wire::ddp::checksum;
use appletalk::wire::{Addr, Ddp, Encode};

#[test]
fn ddp_ddp_long_header() {
    let dgram = [
        0x00, 17, // hops 0, length 17 (13 header + 4 data)
        0x00, 0x00, // no checksum
        0x00, 0x00, 0xff, 0x00, // dst net 0, src net 65280
        255, 128, // dst node, src node
        2, 253, // dst socket, src socket
        2,  // DDP type: NBP
        1, 2, 3, 4,
    ];
    let d = Ddp::parse(&dgram).unwrap();
    assert_eq!(d.src, Addr { net: 65280, node: 128 });
    assert_eq!(d.data, [1, 2, 3, 4]);
    assert_eq!(
        d.to_string(),
        "65280.128:253 > 0.255:2  type 2 (NBP) hops 0 len 17 cksum none"
    );
}

#[test]
fn ddp_ddp_hops_and_10_bit_length() {
    // hops 5, length 600 -> byte 0 = 5<<2 | 600>>8, byte 1 = 600 & 0xff
    let mut dgram = vec![(5 << 2) | 0x02, 88, 0x12, 0x34];
    dgram.resize(13, 0);
    let d = Ddp::parse(&dgram).unwrap();
    assert_eq!((d.hops, d.length, d.checksum), (5, 600, 0x1234));
    assert!(d.to_string().ends_with("hops 5 len 600 (wire 13) cksum 0x1234"));
}

#[test]
fn ddp_ddp_rejects_short_header() {
    assert!(Ddp::parse(&[0; 12]).is_none());
}

#[test]
fn ddp_encodes_known_bytes() {
    let d = Ddp {
        hops: 0,
        length: 0, // deliberately wrong; encode must ignore it
        checksum: 0,
        dst: Addr { net: 0, node: 255 },
        dst_socket: 2,
        src: Addr { net: 65280, node: 128 },
        src_socket: 253,
        typ: 2,
        data: vec![1, 2, 3, 4],
    };
    assert_eq!(
        d.to_bytes(),
        vec![
            0x00, 17, // hops 0, recomputed length 13 + 4
            0x00, 0x00, // checksum
            0x00, 0x00, 0xff, 0x00, // dst net 0, src net 65280
            255, 128, // dst node, src node
            2, 253, // dst socket, src socket
            2, // type
            1, 2, 3, 4,
        ]
    );
}

#[test]
fn ddp_encodes_hops_and_10_bit_length() {
    let mut d = Ddp::parse(&[0x00, 13, 0, 0, 0, 3, 0, 5, 1, 2, 6, 7, 3]).unwrap();
    d.hops = 5;
    d.data = vec![0; 587 - 13]; // 574 bytes -> length 587
    let out = d.to_bytes();
    assert_eq!(out[0], (5 << 2) | 0x02); // hops 5, length bit 9 set
    assert_eq!(out[1], 587u16 as u8 & 0xff);
}

#[test]
fn ddp_round_trips() {
    let d = Ddp::parse(&[
        0x14, 17, 0x12, 0x34, 0x00, 0x03, 0xff, 0x00, 42, 128, 253, 6, 3, 9, 9, 9, 9,
    ])
    .unwrap();
    assert_eq!(Ddp::parse(&d.to_bytes()), Some(d));
}

#[test]
fn ddp_checksum_matches_the_book_algorithm() {
    // Add each byte then rotate left one bit; $FFFF if the result is zero.
    // For [0x01]: 0 + 1 = 1, rotate -> 2.
    assert_eq!(checksum(&[0x01]), 2);
    // For [0x01, 0x02]: 1 -> 2, 2 + 2 = 4, rotate -> 8.
    assert_eq!(checksum(&[0x01, 0x02]), 8);
    // A zero result becomes all ones, since 0 means "not computed".
    assert_eq!(checksum(&[0x00]), 0xffff);
}

#[test]
fn ddp_computes_checksum_over_bytes_after_the_field() {
    let d = Ddp::parse(&[0x00, 14, 0, 0, 0, 3, 0, 5, 1, 2, 6, 7, 3, 0xaa]).unwrap();
    let bytes = d.to_bytes();
    assert_eq!(d.compute_checksum(), checksum(&bytes[4..]));
    // Prove the offset matters: checksum over wrong range must differ
    assert_ne!(d.compute_checksum(), checksum(&bytes));
}
