//! LocalTalk frames.

use appletalk::wire::{Encode, Llap, LLAP_ACK, LLAP_ENQ, LLAP_LONG_DDP, LLAP_SHORT_DDP};

/// A short-header DDP data packet: node 3 to node 12, 8 bytes of data
/// whose first two bytes carry that length.
fn short_ddp() -> Vec<u8> {
    vec![12, 3, LLAP_SHORT_DDP, 0x00, 0x08, 4, 2, 0, 1, 2, 3]
}

#[test]
fn parses_a_short_ddp_packet() {
    let l = Llap::parse(&short_ddp()).unwrap();
    assert_eq!(l.dst, 12);
    assert_eq!(l.src, 3);
    assert_eq!(l.typ, LLAP_SHORT_DDP);
    assert_eq!(l.data, [0x00, 0x08, 4, 2, 0, 1, 2, 3]);
    assert_eq!(l.to_string(), "3 > 12  short-DDP ($01)  8 bytes");
}

#[test]
fn parses_a_long_ddp_packet() {
    // A 13-byte extended DDP header and no data. Byte 0 carries the hop
    // count and the top 2 bits of the length; byte 1 the rest of it.
    let mut p = vec![255, 42, LLAP_LONG_DDP];
    p.extend([0x00, 13, 0, 0, 0x1a, 0x90, 0x1a, 0x90, 1, 42, 128, 128, 4]);
    let l = Llap::parse(&p).unwrap();
    assert_eq!((l.dst, l.src, l.typ), (255, 42, LLAP_LONG_DDP));
    assert_eq!(l.data.len(), 13);
    assert_eq!(l.to_string(), "42 > 255  long-DDP ($02)  13 bytes");
}

#[test]
fn parses_the_control_packets() {
    let enq = Llap::parse(&[42, 42, LLAP_ENQ]).unwrap();
    assert_eq!(enq, Llap::control(42, 42, LLAP_ENQ));
    assert_eq!(enq.to_string(), "42 > 42  lapENQ ($81)");

    let ack = Llap::parse(&[42, 42, LLAP_ACK]).unwrap();
    assert_eq!(ack.to_string(), "42 > 42  lapACK ($82)");

    assert_eq!(Llap::parse(&[9, 8, 0x84]).unwrap().to_string(), "8 > 9  lapRTS ($84)");
    assert_eq!(Llap::parse(&[9, 8, 0x85]).unwrap().to_string(), "8 > 9  lapCTS ($85)");
}

#[test]
fn encodes_without_an_fcs() {
    // LToUDP carries no frame check sequence, so encode is exactly the
    // three header bytes and the data.
    assert_eq!(Llap::parse(&short_ddp()).unwrap().to_bytes(), short_ddp());
    assert_eq!(Llap::control(42, 42, LLAP_ENQ).to_bytes(), vec![42, 42, LLAP_ENQ]);
}

#[test]
fn round_trips_every_type_we_accept() {
    for p in [short_ddp(), vec![1, 2, LLAP_ENQ], vec![1, 2, LLAP_ACK]] {
        let l = Llap::parse(&p).unwrap();
        assert_eq!(Llap::parse(&l.to_bytes()), Some(l), "{p:?}");
    }
}

#[test]
fn rejects_a_runt() {
    assert!(Llap::parse(&[]).is_none());
    assert!(Llap::parse(&[1, 2]).is_none());
}

#[test]
fn rejects_a_control_packet_carrying_data() {
    // Control packets have no data field.
    assert!(Llap::parse(&[42, 42, LLAP_ENQ, 0x00, 0x02]).is_none());
}

#[test]
fn rejects_reserved_control_types() {
    // "must be discarded" — $83 and $86 are not among the four.
    assert!(Llap::parse(&[1, 2, 0x83]).is_none());
    assert!(Llap::parse(&[1, 2, 0x86]).is_none());
    assert!(Llap::parse(&[1, 2, 0xff]).is_none());
}

#[test]
fn rejects_type_zero() {
    assert!(Llap::parse(&[1, 2, 0x00, 0x00, 0x02]).is_none());
}

#[test]
fn rejects_a_length_field_that_disagrees() {
    // Says 9 bytes of data field, carries 8.
    assert!(Llap::parse(&[12, 3, LLAP_SHORT_DDP, 0x00, 0x09, 4, 2, 0, 1, 2, 3]).is_none());
    // Says 2, carries 8.
    assert!(Llap::parse(&[12, 3, LLAP_SHORT_DDP, 0x00, 0x02, 4, 2, 0, 1, 2, 3]).is_none());
}

#[test]
fn rejects_a_data_field_that_is_too_short_or_too_long() {
    // A data packet must carry at least its own 2-byte length field.
    assert!(Llap::parse(&[12, 3, LLAP_SHORT_DDP, 0x00]).is_none());
    // 601 bytes, one over the maximum.
    let mut big = vec![12, 3, LLAP_SHORT_DDP];
    big.extend((601u16).to_be_bytes());
    big.resize(3 + 601, 0);
    assert!(Llap::parse(&big).is_none());
}

#[test]
fn ignores_the_high_six_bits_of_the_length() {
    // They belong to the higher-level protocol — for DDP, its reserved
    // bits and hop count — and must not be read as length.
    let p = vec![12, 3, LLAP_SHORT_DDP, 0xfc, 0x08, 4, 2, 0, 1, 2, 3];
    assert_eq!(Llap::parse(&p).unwrap().data.len(), 8);
}
