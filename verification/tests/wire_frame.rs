//! Ethernet frames and the walk up the stack.

use appletalk::wire::{decode, Addr, Body, DdpBody, Frame, Func, AARP, DDP, DDP_ATP};

/// dst, src, then body; padded to the 60-byte Ethernet minimum.
fn frame(typelen: u16, body: &[u8]) -> Vec<u8> {
    let mut f = vec![0xff; 12];
    f.extend(typelen.to_be_bytes());
    f.extend(body);
    f.resize(60, 0);
    f
}

/// An ATP header with tid 4660 and user bytes 01 02 03 04.
fn atp(control: u8, bitmap: u8, data: &[u8]) -> Vec<u8> {
    let mut p = vec![control, bitmap, 0x12, 0x34, 1, 2, 3, 4];
    p.extend(data);
    p
}

#[test]
fn mod_phase2_ddp() {
    let body = [
        0xaa, 0xaa, 0x03, 0x08, 0x00, 0x07, 0x80, 0x9b, // LLC + SNAP
        1, 2, 3, 4,
    ];
    let bytes = frame(body.len() as u16, &body);
    let f = Frame::parse(&bytes).unwrap();
    assert_eq!((f.proto, f.snap), (DDP, true));
    assert_eq!(f.payload, [1, 2, 3, 4]);
    assert_eq!(
        f.to_string(),
        "ff:ff:ff:ff:ff:ff > ff:ff:ff:ff:ff:ff  DDP (0x809b)  phase 2  4 bytes"
    );
}

#[test]
fn mod_phase2_aarp() {
    let body = [0xaa, 0xaa, 0x03, 0x00, 0x00, 0x00, 0x80, 0xf3, 9];
    let bytes = frame(body.len() as u16, &body);
    let f = Frame::parse(&bytes).unwrap();
    assert_eq!((f.proto, f.snap), (AARP, true));
    assert_eq!(f.payload, [9]);
}

#[test]
fn mod_phase1_raw_ethertype() {
    let bytes = frame(DDP, &[1, 2, 3]);
    let f = Frame::parse(&bytes).unwrap();
    assert_eq!((f.proto, f.snap), (DDP, false));
    assert_eq!(f.payload[..3], [1, 2, 3]); // no length field: padding included
}

#[test]
fn mod_frame_ignores_non_snap_and_short() {
    assert!(Frame::parse(&frame(3, &[0x42, 0x42, 0x03])).is_none()); // plain LLC
    assert!(Frame::parse(&[0; 10]).is_none()); // runt
    assert!(Frame::parse(&frame(1400, &[0xaa; 8])).is_none()); // length > frame
}

#[test]
fn decode_walks_the_whole_stack() {
    // Ethernet + SNAP -> DDP type 3 -> ATP TReq.
    let mut dgram = vec![
        0x00, 0, // hops 0, length patched below
        0x00, 0x00, // no checksum
        0x00, 0x03, 0xff, 0x00, // dst net 3, src net 65280
        42, 128, // dst node, src node
        253, 6, // dst socket, src socket
        DDP_ATP,
    ];
    dgram.extend(atp(0x40, 0x01, &[7]));
    dgram[1] = dgram.len() as u8;

    let mut body = vec![0xaa, 0xaa, 0x03, 0x08, 0x00, 0x07, 0x80, 0x9b];
    body.extend(&dgram);
    let p = decode(&frame(body.len() as u16, &body)).unwrap();

    assert_eq!(p.frame.proto, DDP);
    match p.body {
        Body::Ddp(d, DdpBody::Atp(a)) => {
            assert_eq!((d.typ, d.dst), (DDP_ATP, Addr { net: 3, node: 42 }));
            assert_eq!((a.func, a.tid), (Func::Req, 4660));
            assert_eq!(a.data, [7]);
        }
        other => panic!("expected ATP over DDP, got {other:?}"),
    }
}

#[test]
fn decode_skips_non_appletalk() {
    assert!(decode(&frame(0x0800, &[0; 20])).is_none()); // IPv4
    assert!(decode(&[0; 10]).is_none()); // runt
}

#[test]
fn decode_keeps_bytes_for_layers_it_cannot_follow() {
    // DDP type 7 (ADSP) — recognised as DDP, but we have no ADSP parser,
    // so the datagram still decodes and its body stays available as bytes.
    let mut dgram = vec![0x00, 17, 0x00, 0x00, 0x00, 0x03, 0xff, 0x00, 42, 128, 253, 6, 7];
    dgram.extend([1, 2, 3, 4]);
    let mut body = vec![0xaa, 0xaa, 0x03, 0x08, 0x00, 0x07, 0x80, 0x9b];
    body.extend(&dgram);
    let p = decode(&frame(body.len() as u16, &body)).unwrap();
    match p.body {
        Body::Ddp(d, DdpBody::Unknown) => assert_eq!(d.data, [1, 2, 3, 4]),
        other => panic!("expected undecoded DDP body, got {other:?}"),
    }
}

#[test]
fn a_protocol_of_ours_under_a_foreign_oui_is_not_ours() {
    let snap = |oui: [u8; 3], proto: [u8; 2]| {
        let mut b = vec![0x09, 0x00, 0x07, 0xff, 0xff, 0xff, 0x00, 0x05, 0x02, 0xaa, 0xbb, 0xcc, 0, 9, 0xaa, 0xaa, 0x03];
        b.extend(oui);
        b.extend(proto);
        b.push(7);
        b
    };
    let (apple, zero) = ([0x08, 0x00, 0x07], [0, 0, 0]);
    assert!(Frame::parse(&snap(apple, [0x80, 0x9b])).is_some());
    assert!(Frame::parse(&snap(zero, [0x80, 0xf3])).is_some());
    assert_eq!(Frame::parse(&snap(zero, [0x80, 0x9b])), None);
    assert_eq!(Frame::parse(&snap(apple, [0x80, 0xf3])), None);
    assert_eq!(Frame::parse(&snap([0x08, 0x00, 0x08], [0x80, 0x9b])), None);
}
