//! Tunnel packets.

use appletalk::wire::{Aurp, Cmd, Di, DomainHeader, Encode, Ipv4Addr, NetworkTuple};

fn dh() -> Vec<u8> {
    vec![7, 1, 0, 0, 192, 0, 2, 1, 7, 1, 0, 0, 192, 0, 2, 2, 0, 1, 0, 0, 0, 3]
}
fn hdr() -> DomainHeader { DomainHeader { dst: Di::Ip(Ipv4Addr::new(192, 0, 2, 1)), src: Di::Ip(Ipv4Addr::new(192, 0, 2, 2)) } }
fn routing(conn: u16, seq: u16, cmd: u16, flags: u16, body: &[u8]) -> Vec<u8> {
    let mut p = dh();
    p.extend(conn.to_be_bytes()); p.extend(seq.to_be_bytes());
    p.extend(cmd.to_be_bytes()); p.extend(flags.to_be_bytes());
    p.extend(body);
    p
}

#[test]
fn open_req_from_the_doc() {
    let p = routing(0x1234, 0, 8, 0x7800, &[0, 1, 0]);
    let a = Aurp::parse(&p).unwrap();
    assert_eq!(a, Aurp::Routing { dh: hdr(), conn: 0x1234, seq: 0, cmd: Cmd::OpenReq { sui: 0x7800, version: 1, options: vec![] } });
    assert_eq!(a.to_string(), "aurp 192.0.2.2 > 192.0.2.1 conn 4660 seq 0 open-req sui 7800 v1");
    assert_eq!(a.to_bytes(), p);
}

#[test]
fn open_rsp_rate_and_error() {
    let ok = Aurp::parse(&routing(1, 0, 9, 0, &[0, 1, 0])).unwrap();
    assert!(matches!(ok, Aurp::Routing { cmd: Cmd::OpenRsp { rate_or_err: 1, .. }, .. }));
    let err = Aurp::parse(&routing(1, 0, 9, 0, &[0xff, 0xfb, 0])).unwrap();
    assert!(matches!(err, Aurp::Routing { cmd: Cmd::OpenRsp { rate_or_err: -5, .. }, .. }));
    assert!(err.to_string().ends_with("open-rsp error -5"));
}

#[test]
fn options_round_trip_and_overrun_rejects() {
    let p = routing(1, 0, 8, 0x7800, &[0, 1, 1, 3, 1, 0xaa, 0xbb]);
    let a = Aurp::parse(&p).unwrap();
    assert!(matches!(&a, Aurp::Routing { cmd: Cmd::OpenReq { options, .. }, .. } if options == &[(1u8, vec![0xaa, 0xbb])]));
    assert_eq!(a.to_bytes(), p);
    assert!(Aurp::parse(&routing(1, 0, 8, 0x7800, &[0, 1, 1, 9, 1, 0xaa])).is_none());
}

#[test]
fn ri_rsp_tuples_use_the_zero_trailer() {
    let p = routing(1, 1, 2, 0x8000, &[0x1a, 0x90, 0x80, 0x1a, 0x90, 0x00, 0x00, 0x05, 0x02]);
    let a = Aurp::parse(&p).unwrap();
    let Aurp::Routing { seq, cmd: Cmd::RiRsp { last, tuples }, .. } = &a else { panic!() };
    assert_eq!((*seq, *last), (1, true));
    assert_eq!(tuples[0], NetworkTuple { range: (6800, 6800), extended: true, distance: 0 });
    assert_eq!(tuples[1], NetworkTuple { range: (5, 5), extended: false, distance: 2 });
    assert_eq!(a.to_bytes(), p);
    assert_eq!(a.to_string(), "aurp 192.0.2.2 > 192.0.2.1 conn 1 seq 1 ri-rsp last 2 nets");
}

#[test]
fn ri_upd_event_tuples_have_no_trailer() {
    let p = routing(1, 2, 4, 0, &[1, 0x1a, 0x90, 0x80, 0x1a, 0x90, 2, 0, 5, 0, 0]);
    let a = Aurp::parse(&p).unwrap();
    let Aurp::Routing { cmd: Cmd::RiUpd { events }, .. } = &a else { panic!() };
    assert_eq!(events.len(), 3);
    assert_eq!(events[0].code, 1);
    assert_eq!(events[0].tuple.range, (6800, 6800));
    assert_eq!((events[1].code, events[1].tuple.range), (2, (5, 5)));
    assert_eq!(events[2].code, 0); // the null event is one byte
    assert_eq!(a.to_bytes(), p);
}

#[test]
fn ri_ack_and_rd() {
    let a = Aurp::parse(&routing(1, 1, 3, 0x4000, &[])).unwrap();
    assert!(matches!(a, Aurp::Routing { cmd: Cmd::RiAck { szi: true }, .. }));
    let a = Aurp::parse(&routing(1, 3, 5, 0, &[0xff, 0xff])).unwrap();
    assert!(matches!(a, Aurp::Routing { cmd: Cmd::Rd { code: -1 }, .. }));
    assert!(Aurp::parse(&routing(1, 1, 3, 0, &[0])).is_none()); // ri-ack has no body
}

#[test]
fn zi_rsp_optimized_tuple_from_the_doc() {
    let mut body = vec![0, 1, 0, 2, 0x1a, 0x90, 0x0c];
    body.extend(b"68k Mac Club");
    body.extend([0x0b, 0x59, 0x80, 0x00]);
    let p = routing(1, 0, 7, 0, &body);
    let a = Aurp::parse(&p).unwrap();
    let Aurp::Routing { cmd: Cmd::ZiRsp { extended, zones }, .. } = &a else { panic!() };
    assert_eq!(*extended, None);
    assert_eq!(zones, &[(6800, "68k Mac Club".to_string()), (2905, "68k Mac Club".to_string())]);
    // Encoding optimizes the repeat back into the same bytes.
    assert_eq!(a.to_bytes(), p);
    // An offset past the end of the packet is rejected.
    let mut bad = vec![0, 1, 0, 2, 0x1a, 0x90, 0x0c];
    bad.extend(b"68k Mac Club");
    bad.extend([0x0b, 0x59, 0x80, 0x40]);
    assert!(Aurp::parse(&routing(1, 0, 7, 0, &bad)).is_none());
}

#[test]
fn zi_req_gzn_gdzl_tickle() {
    let a = Aurp::parse(&routing(1, 0, 6, 0, &[0, 1, 0x1a, 0x90, 0x0b, 0x59])).unwrap();
    assert!(matches!(&a, Aurp::Routing { cmd: Cmd::ZiReq { nets }, .. } if nets == &[6800, 2905]));
    assert!(Aurp::parse(&routing(1, 0, 6, 0, &[0, 1, 0x1a])).is_none()); // odd byte
    let a = Aurp::parse(&routing(1, 0, 6, 0, &[0, 3, 1, b'Z'])).unwrap();
    assert!(matches!(&a, Aurp::Routing { cmd: Cmd::GznReq { zone }, .. } if zone == "Z"));
    let a = Aurp::parse(&routing(1, 0, 7, 0, &[0, 3, 1, b'Z', 0xff, 0xff])).unwrap();
    assert!(matches!(a, Aurp::Routing { cmd: Cmd::GznRsp { tuples: None, .. }, .. }));
    let a = Aurp::parse(&routing(1, 0, 6, 0, &[0, 4, 0, 0])).unwrap();
    assert!(matches!(a, Aurp::Routing { cmd: Cmd::GdzlReq { start: 0 }, .. }));
    let a = Aurp::parse(&routing(1, 0, 7, 0x8000, &[0, 4, 0xff, 0xff])).unwrap();
    assert!(matches!(a, Aurp::Routing { cmd: Cmd::GdzlRsp { last: true, start: -1, .. }, .. }));
    assert!(Aurp::parse(&routing(1, 0, 6, 0, &[0, 9])).is_none()); // unknown subcode
    assert!(matches!(Aurp::parse(&routing(1, 0, 14, 0, &[])).unwrap(), Aurp::Routing { cmd: Cmd::Tickle, .. }));
    assert!(matches!(Aurp::parse(&routing(1, 0, 15, 0, &[])).unwrap(), Aurp::Routing { cmd: Cmd::TickleAck, .. }));
    assert!(Aurp::parse(&routing(1, 0, 10, 0, &[])).is_none()); // undefined command
}

#[test]
fn data_packet_and_null_di() {
    let mut p = vec![1, 0, 7, 1, 0, 0, 10, 0, 0, 1, 0, 1, 0, 0, 0, 2];
    let ddp = [0x00, 13, 0, 0, 0x1a, 0x90, 0x0b, 0x59, 1, 2, 4, 4, 4];
    p.extend(ddp);
    let a = Aurp::parse(&p).unwrap();
    let Aurp::Data { dh, ddp: got } = &a else { panic!() };
    assert_eq!(dh.dst, Di::Null);
    assert_eq!(dh.src, Di::Ip(Ipv4Addr::new(10, 0, 0, 1)));
    assert_eq!(got, &ddp);
    assert_eq!(a.to_bytes(), p);
    assert_eq!(a.to_string(), "aurp-data 10.0.0.1 > null 13 bytes");
    assert!(Aurp::parse(&p[..p.len() - 1]).is_none()); // shorter than a DDP header
}

#[test]
fn domain_header_rejects() {
    let mut p = dh(); p[16] = 2;                      // version 2
    assert!(Aurp::parse(&p).is_none());
    let mut p = dh(); p[21] = 4;                      // packet type 4
    assert!(Aurp::parse(&p).is_none());
    let mut p = dh(); p[1] = 2;                       // authority 2
    assert!(Aurp::parse(&p).is_none());
    let mut p = dh(); p[0] = 5;                       // IP DI with the wrong length
    assert!(Aurp::parse(&p).is_none());
    assert!(Aurp::parse(&dh()).is_none());            // routing header missing
    assert!(Aurp::parse(&dh()[..10]).is_none());
}

/// The paths the doc's worked examples do not reach: subcode 2 carries a
/// whole-list count that survives a round trip, and the two optional
/// commands can be answered rather than refused.
#[test]
fn extended_zi_rsp_and_the_optional_commands() {
    let p = routing(1, 0, 7, 0, &[0, 2, 0, 5, 0x1a, 0x90, 1, b'Z']);
    let a = Aurp::parse(&p).unwrap();
    let Aurp::Routing { cmd: Cmd::ZiRsp { extended, zones }, .. } = &a else { panic!() };
    assert_eq!((*extended, zones.len()), (Some(5), 1));
    assert_eq!(a.to_bytes(), p); // the count is the list's, not this packet's
    assert!(a.to_string().ends_with("zi-rsp 1 zones"));

    let p = routing(1, 0, 7, 0, &[0, 3, 1, b'Z', 0, 1, 0x1a, 0x90, 0x80, 0x1a, 0x90, 0x00]);
    let a = Aurp::parse(&p).unwrap();
    let Aurp::Routing { cmd: Cmd::GznRsp { tuples: Some(tuples), .. }, .. } = &a else { panic!() };
    assert_eq!(tuples[0].range, (6800, 6800));
    assert_eq!(a.to_bytes(), p);

    let p = routing(1, 0, 7, 0x8000, &[0, 4, 0, 0, 1, b'A', 1, b'B']);
    let a = Aurp::parse(&p).unwrap();
    let Aurp::Routing { cmd: Cmd::GdzlRsp { last, start, zones }, .. } = &a else { panic!() };
    assert_eq!((*last, *start), (true, 0));
    assert_eq!(zones, &["A".to_string(), "B".to_string()]);
    assert_eq!(a.to_bytes(), p);
    assert!(a.to_string().ends_with("gdzl-rsp"));

    // A zone name that runs off the end of the packet, and a count that
    // claims a tuple the body does not hold.
    assert!(Aurp::parse(&routing(1, 0, 7, 0, &[0, 1, 0, 1, 0x1a, 0x90, 0x20, b'Z'])).is_none());
    assert!(Aurp::parse(&routing(1, 0, 7, 0, &[0, 3, 1, b'Z', 0, 2, 0x1a, 0x90, 0])).is_none());
}
