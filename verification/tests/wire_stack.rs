//! Every protocol from its bytes to its printed form.

use appletalk::wire::{Aarp, Addr, Aep, Atp, Ddp, Echo, Frame, Func, Nbp, NbpFunc, Zip, AARP, DDP};

/// dst, src, then body; padded to the 60-byte Ethernet minimum.
fn frame(typelen: u16, body: &[u8]) -> Vec<u8> {
    let mut f = vec![0xff; 12];
    f.extend(typelen.to_be_bytes());
    f.extend(body);
    f.resize(60, 0);
    f
}

fn aarp(op: u16, extra: &[u8]) -> Vec<u8> {
    let mut p = vec![0x00, 0x01, 0x80, 0x9b, 6, 4];
    p.extend(op.to_be_bytes());
    p.extend([0x00, 0x05, 0x02, 0xaa, 0xbb, 0xcc]); // src MAC
    p.extend([0x00, 0xff, 0x00, 128]); // src 65280.128
    p.extend([0; 6]); // dst MAC unknown
    p.extend([0x00, 0xff, 0x00, 42]); // dst 65280.42
    p.extend(extra);
    p
}

fn atp(control: u8, bitmap: u8, data: &[u8]) -> Vec<u8> {
    let mut p = vec![control, bitmap, 0x12, 0x34, 1, 2, 3, 4]; // tid 4660
    p.extend(data);
    p
}

/// A length-prefixed string, as it appears in NBP and ZIP.
fn ps(s: &str) -> Vec<u8> {
    let mut v = vec![s.len() as u8];
    v.extend(s.bytes());
    v
}

#[test]
fn wire_phase2_ddp() {
    let body = [
        0xaa, 0xaa, 0x03, 0x08, 0x00, 0x07, 0x80, 0x9b, // LLC + SNAP
        1, 2, 3, 4,
    ];
    let bytes = frame(body.len() as u16, &body);
    let f = Frame::parse(&bytes).unwrap();
    assert_eq!((f.proto, f.snap, &f.payload[..]), (DDP, true, &[1, 2, 3, 4][..]));
    assert_eq!(
        f.to_string(),
        "ff:ff:ff:ff:ff:ff > ff:ff:ff:ff:ff:ff  DDP (0x809b)  phase 2  4 bytes"
    );
}

#[test]
fn wire_phase2_aarp() {
    let body = [0xaa, 0xaa, 0x03, 0x00, 0x00, 0x00, 0x80, 0xf3, 9];
    let bytes = frame(body.len() as u16, &body);
    let f = Frame::parse(&bytes).unwrap();
    assert_eq!((f.proto, f.snap, &f.payload[..]), (AARP, true, &[9][..]));
}

#[test]
fn wire_phase1_raw_ethertype() {
    let bytes = frame(DDP, &[1, 2, 3]);
    let f = Frame::parse(&bytes).unwrap();
    assert_eq!((f.proto, f.snap), (DDP, false));
    assert_eq!(&f.payload[..3], &[1, 2, 3]); // no length field: padding included
}

#[test]
fn wire_frame_ignores_non_snap_and_short() {
    assert!(Frame::parse(&frame(3, &[0x42, 0x42, 0x03])).is_none()); // plain LLC
    assert!(Frame::parse(&[0; 10]).is_none()); // runt
    assert!(Frame::parse(&frame(1400, &[0xaa; 8])).is_none()); // length > frame
}

#[test]
fn wire_ddp_long_header() {
    let dgram = [
        0x00, 17, // hops 0, length 17 (13 header + 4 data)
        0x00, 0x00, // no checksum
        0x00, 0x00, 0xff, 0x00, // dst net 0, src net 65280
        255, 128, // dst node, src node
        2, 253, // dst socket, src socket
        2,  // DDP type: NBP
        1, 2, 3, 4,
    ];
    let d = Ddp::parse(&dgram).unwrap();
    assert_eq!(d.src, Addr { net: 65280, node: 128 });
    assert_eq!(d.data, &[1, 2, 3, 4]);
    assert_eq!(
        d.to_string(),
        "65280.128:253 > 0.255:2  type 2 (NBP) hops 0 len 17 cksum none"
    );
}

#[test]
fn wire_ddp_hops_and_10_bit_length() {
    // hops 5, length 600 -> byte 0 = 5<<2 | 600>>8, byte 1 = 600 & 0xff
    let mut dgram = vec![(5 << 2) | 0x02, 88, 0x12, 0x34];
    dgram.resize(13, 0);
    let d = Ddp::parse(&dgram).unwrap();
    assert_eq!((d.hops, d.length, d.checksum), (5, 600, 0x1234));
    assert!(d.to_string().ends_with("hops 5 len 600 (wire 13) cksum 0x1234"));
}

#[test]
fn wire_ddp_rejects_short_header() {
    assert!(Ddp::parse(&[0; 12]).is_none());
}

#[test]
fn wire_atp_treq_exactly_once() {
    // 0x40 TReq | 0x20 XO | timeout 0 (30s)
    let p = atp(0x60, 0x07, &[9, 9]);
    let a = Atp::parse(&p).unwrap();
    assert_eq!((a.func, a.tid, a.bitmap), (Func::Req, 4660, 0x07));
    assert!(a.xo() && !a.eom());
    assert_eq!(a.data, &[9, 9]);
    assert_eq!(a.to_string(), "TReq tid 4660 bitmap 0x07 XO(30s) user 01020304");
}

#[test]
fn wire_atp_tresp_flags() {
    // 0x80 TResp | 0x10 EOM | 0x08 STS, sequence number 2
    let p = atp(0x98, 2, &[]);
    let a = Atp::parse(&p).unwrap();
    assert_eq!(a.func, Func::Resp);
    assert_eq!(a.to_string(), "TResp tid 4660 seq 2 EOM STS user 01020304");
}

#[test]
fn wire_atp_trel_omits_bitmap() {
    let p = atp(0xc0, 0, &[]);
    let a = Atp::parse(&p).unwrap();
    assert_eq!(a.to_string(), "TRel tid 4660 user 01020304");
}

#[test]
fn wire_atp_rejects_reserved_func_and_short() {
    assert!(Atp::parse(&atp(0x00, 0, &[])).is_none()); // function code 00
    assert!(Atp::parse(&atp(0x40, 0, &[])[..7]).is_none()); // truncated header
}

#[test]
fn wire_aep_request_and_reply() {
    let req = Aep::parse(&[1, 0xde, 0xad, 0xbe, 0xef]).unwrap();
    assert_eq!(req.func, Echo::Request);
    assert_eq!(req.data, &[0xde, 0xad, 0xbe, 0xef]);
    assert_eq!(req.to_string(), "request 4 bytes");

    let reply = Aep::parse(&[2]).unwrap();
    assert_eq!((reply.func, &reply.data[..]), (Echo::Reply, &[][..]));
    assert_eq!(reply.to_string(), "reply 0 bytes");
}

#[test]
fn wire_aep_rejects_unknown_func_and_empty() {
    assert!(Aep::parse(&[0]).is_none());
    assert!(Aep::parse(&[]).is_none());
}

#[test]
fn wire_aarp_request() {
    let a = Aarp::parse(&aarp(1, &[])).unwrap();
    assert_eq!(a.dst, Addr { net: 65280, node: 42 });
    assert_eq!(
        a.to_string(),
        "request  65280.128 (00:05:02:aa:bb:cc) > 65280.42 (00:00:00:00:00:00)"
    );
}

#[test]
fn wire_aarp_probe_ignores_trailing_padding() {
    let a = Aarp::parse(&aarp(3, &[0; 20])).unwrap();
    assert_eq!(a.op_name(), "probe");
}

#[test]
fn wire_aarp_rejects_short_and_foreign() {
    assert!(Aarp::parse(&aarp(1, &[])[..27]).is_none()); // truncated
    let mut token_ring = aarp(1, &[]);
    token_ring[1] = 0x02; // hardware type != Ethernet
    assert!(Aarp::parse(&token_ring).is_none());
}

#[test]
fn wire_nbp_lookup_one_tuple() {
    let mut p = vec![(2 << 4) | 1, 42]; // LkUp, 1 tuple, id 42
    p.extend([0xff, 0x00, 128, 253, 0]); // 65280.128 socket 253
    p.extend(ps("="));
    p.extend(ps("AFPServer"));
    p.extend(ps("*"));
    let n = Nbp::parse(&p).unwrap();
    assert_eq!((n.func, n.id, n.tuples.len()), (NbpFunc::LkUp, 42, 1));
    assert_eq!(n.to_string(), "LkUp id 42  =:AFPServer@* at 65280.128:253");
}

#[test]
fn wire_nbp_reply_two_tuples_with_enumerator() {
    let mut p = vec![(3 << 4) | 2, 7];
    for (node, enumerator, name) in [(128u8, 0u8, "Mac IIci"), (129, 3, "SE/30")] {
        p.extend([0xff, 0x00, node, 253, enumerator]);
        p.extend(ps(name));
        p.extend(ps("AFPServer"));
        p.extend(ps("Engineering"));
    }
    let n = Nbp::parse(&p).unwrap();
    assert_eq!(n.tuples.len(), 2);
    assert_eq!(n.tuples[1].enumerator, 3);
    assert_eq!(
        n.to_string(),
        "LkUp-Reply id 7  Mac IIci:AFPServer@Engineering at 65280.128:253  \
         SE/30:AFPServer@Engineering at 65280.129:253 #3"
    );
}

#[test]
fn wire_nbp_rejects_bad_function_and_truncated_tuple() {
    assert!(Nbp::parse(&[0x00, 1]).is_none()); // function 0
    assert!(Nbp::parse(&[(2 << 4) | 1, 1, 0xff, 0x00]).is_none()); // tuple cut short
}

#[test]
fn wire_zip_query() {
    let z = Zip::parse(&[1, 2, 0, 3, 0, 5]).unwrap();
    assert_eq!(z, Zip::Query { nets: vec![3, 5] });
    assert_eq!(z.to_string(), "query nets 3, 5");
}

#[test]
fn wire_zip_reply_pairs_nets_with_zones() {
    let mut p = vec![2, 2];
    p.extend([0, 3]);
    p.extend(ps("Engineering"));
    p.extend([0, 5]);
    p.extend(ps("Marketing"));
    let z = Zip::parse(&p).unwrap();
    assert_eq!(z.to_string(), "reply 3=Engineering, 5=Marketing");
}

#[test]
fn wire_zip_get_net_info_round_trip() {
    let mut req = vec![5, 0, 0, 0, 0, 0];
    req.extend(ps("Engineering"));
    assert_eq!(
        Zip::parse(&req).unwrap().to_string(),
        "get-net-info zone Engineering"
    );

    // Reply: flags "only one zone", cable range 3-5, plus the multicast
    // address a node in that zone should listen on.
    let mut reply = vec![6, 0x20, 0, 3, 0, 5];
    reply.extend(ps("Engineering"));
    reply.extend([6, 0x09, 0x00, 0x07, 0x00, 0x00, 0x01]);
    let z = Zip::parse(&reply).unwrap();
    assert_eq!(
        z.to_string(),
        "net-info-reply nets 3-5 zone Engineering mcast 09:00:07:00:00:01 one-zone"
    );
}

#[test]
fn wire_zip_net_info_reply_carries_default_zone_when_invalid() {
    let mut reply = vec![6, 0x80, 0, 3, 0, 5]; // 0x80 = requested zone invalid
    reply.extend(ps("Nonexistent"));
    reply.extend([6, 0x09, 0x00, 0x07, 0x00, 0x00, 0x01]);
    reply.extend(ps("Engineering"));
    let z = Zip::parse(&reply).unwrap();
    assert!(z.to_string().ends_with("zone-invalid default Engineering"), "{z:?}");
}

#[test]
fn wire_zip_rejects_unknown_command_and_short() {
    assert!(Zip::parse(&[99, 0]).is_none());
    assert!(Zip::parse(&[1]).is_none()); // no count byte
    assert!(Zip::parse(&[1, 4, 0, 3]).is_none()); // count exceeds body
}
