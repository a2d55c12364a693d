//! Routing table packets.

use appletalk::wire::{Addr, Encode, NetworkTuple, Rtmp};

#[test]
fn data_on_an_extended_network() {
    let p = [
        0x1a, 0x90, 8, 1,                      // sender 6800.1
        0x1a, 0x90, 0x80, 0x1a, 0x90, 0x82,    // first tuple: range 6800-6800, distance 0
        0x1a, 0x91, 0x01,                      // 6801 at 1 hop, nonextended
        0x0b, 0x59, 0x82, 0x0b, 0x59, 0x82,    // 2905-2905 at 2 hops
    ];
    let r = Rtmp::parse(1, &p).unwrap();
    let Rtmp::Data { sender, range, tuples } = &r else { panic!() };
    assert_eq!(*sender, Addr { net: 6800, node: 1 });
    assert_eq!(*range, Some((6800, 6800)));
    assert_eq!(tuples.len(), 2);
    assert_eq!(tuples[0], NetworkTuple { range: (6801, 6801), extended: false, distance: 1 });
    assert_eq!(tuples[1], NetworkTuple { range: (2905, 2905), extended: true, distance: 2 });
    assert_eq!(r.to_string(), "rtmp-data from 6800.1 range 6800-6800: 6801 d1, 2905-2905 d2");
    assert_eq!(r.to_bytes(), p);
}

#[test]
fn data_on_a_nonextended_network_carries_the_version_marker() {
    let p = [0x00, 0x05, 8, 0x80, 0x00, 0x00, 0x82, 0x00, 0x07, 0x1f];
    let r = Rtmp::parse(1, &p).unwrap();
    let Rtmp::Data { sender, range, tuples } = &r else { panic!() };
    assert_eq!((*sender, *range), (Addr { net: 5, node: 128 }, None));
    assert_eq!(tuples, &[NetworkTuple { range: (7, 7), extended: false, distance: 31 }]);
    assert_eq!(r.to_string(), "rtmp-data from 5.128: 7 d31");
    assert_eq!(r.to_bytes(), p);
}

#[test]
fn response_is_a_data_with_no_tuples() {
    let p = [0x1a, 0x90, 8, 1, 0x1a, 0x90, 0x80, 0x1a, 0x90, 0x82];
    let r = Rtmp::parse(1, &p).unwrap();
    assert!(matches!(&r, Rtmp::Data { tuples, .. } if tuples.is_empty()));
    assert_eq!(r.to_bytes(), p);
}

#[test]
fn request_and_rdr() {
    assert_eq!(Rtmp::parse(5, &[1]).unwrap(), Rtmp::Request);
    assert_eq!(Rtmp::parse(5, &[2]).unwrap(), Rtmp::Rdr { split_horizon: true });
    assert_eq!(Rtmp::parse(5, &[3]).unwrap().to_string(), "rtmp-rdr full");
    assert_eq!(Rtmp::Request.to_bytes(), [1]);
    assert_eq!(Rtmp::Request.ddp_type(), 5);
    assert_eq!(Rtmp::Data { sender: Addr { net: 1, node: 1 }, range: None, tuples: vec![] }.ddp_type(), 1);
}

#[test]
fn rejects() {
    assert!(Rtmp::parse(5, &[4]).is_none());          // unknown function
    assert!(Rtmp::parse(5, &[1, 0]).is_none());       // trailing byte
    assert!(Rtmp::parse(5, &[]).is_none());
    assert!(Rtmp::parse(2, &[1]).is_none());          // not an RTMP type
    assert!(Rtmp::parse(1, &[0x1a, 0x90, 8]).is_none());               // no node
    assert!(Rtmp::parse(1, &[0x1a, 0x90, 16, 1, 0, 0, 0x82]).is_none()); // id length not 8
    assert!(Rtmp::parse(1, &[0x1a, 0x90, 8, 1, 0x1a, 0x90, 0x80, 0x1a]).is_none()); // extended tuple cut short
    assert!(Rtmp::parse(1, &[0x1a, 0x90, 8, 1, 0x1a, 0x90, 0x80, 0x1a, 0x90, 0x82, 0x00]).is_none()); // dangling byte
}

#[test]
fn tuple_trailer_is_a_parameter() {
    let t = NetworkTuple { range: (3, 4), extended: true, distance: 5 };
    let mut out = Vec::new();
    t.encode_with(&mut out, 0x00);
    assert_eq!(out, [0, 3, 0x85, 0, 4, 0]);
    // A nonextended tuple has no trailer at all.
    let mut out = Vec::new();
    NetworkTuple { range: (3, 3), extended: false, distance: 5 }.encode_with(&mut out, 0x82);
    assert_eq!(out, [0, 3, 5]);
}
