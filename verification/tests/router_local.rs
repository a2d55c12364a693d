//! The services a router owes its own cables.

use appletalk::addr::MacAddr;
use appletalk::node::datagram;
use appletalk::router::local::{rtmp_data, Local, DDP_MAX, RTMP_INTERVAL, RTMP_SOCKET, ZIP_QUERY_INTERVAL};
use appletalk::router::ports::{Kind, Port};
use appletalk::router::table::Tables;
use appletalk::router::{Dest, Emit, PortId, Target};
use appletalk::wire::{Addr, Ddp, DdpBody, Encode, NetworkTuple, Rtmp, Zip, DDP_RTMP_DATA, DDP_RTMP_REQ};

const MAC: MacAddr = MacAddr(0x02, 0, 0, 0, 0, 1);
const NET: u16 = 6800;
const ZONE: &str = "68k Mac Club";
const PEER: Addr = Addr { net: NET, node: 1 };

fn ether(id: PortId, range: (u16, u16), zones: &[&str], node: u8, now: u64) -> Port {
    let zones = zones.iter().map(|z| z.to_string()).collect();
    let mut p = Port::new(id, format!("eth{id}"), Kind::Ether { mac: MAC }, range, zones, now);
    p.node = Some(node);
    p
}

fn ltalk(id: PortId, net: u16, zones: &[&str], node: u8, now: u64) -> Port {
    let zones = zones.iter().map(|z| z.to_string()).collect();
    let mut p = Port::new(id, "ltoudp".into(), Kind::Ltoudp, (net, net), zones, now);
    p.node = Some(node);
    p
}

/// A datagram addressed to us on `socket`, from `PEER`.
fn to_us(port: &Port, socket: u8, typ: u8, body: &impl Encode) -> Ddp {
    datagram(PEER, 200, port.addr().unwrap(), socket, typ, body.to_bytes())
}

fn ext(start: u16, end: u16, distance: u8) -> NetworkTuple {
    NetworkTuple { range: (start, end), extended: true, distance }
}

/// The `Rtmp` inside an `Emit`, with the port and destination it went to.
fn rtmp_of(e: &Emit) -> (PortId, &Dest, Rtmp) {
    match e {
        Emit::On { port, dest, ddp } => {
            (*port, dest, Rtmp::parse(ddp.typ, &ddp.data).expect("RTMP"))
        }
        other => panic!("expected a port-directed emit, got {other:?}"),
    }
}

#[test]
fn rtmp_data_from_another_router_is_learned_and_our_own_is_ignored() {
    let t = 1_000_000u64;
    let p = ether(0, (NET, NET), &[ZONE], 9, t);
    let mut tables = Tables::new();
    tables.add_port(0, (NET, NET), true, vec![ZONE.into()], t);
    let mut l = Local::new("router".into());

    let data = Rtmp::Data {
        sender: PEER,
        range: Some((NET, NET)),
        tuples: vec![ext(2905, 2905, 1)],
    };
    let ddp = to_us(&p, RTMP_SOCKET, DDP_RTMP_DATA, &data);
    let (out, changes) =
        l.handle(&p, &[p_clone(&p)], &ddp, &DdpBody::Rtmp(data), &mut tables, t);
    assert_eq!(out, Vec::new());
    assert_eq!(changes.len(), 1, "{changes:?}");
    let new = changes[0].new.as_ref().unwrap();
    assert_eq!((new.range, new.distance, new.next), ((2905, 2905), 2, PEER));
    assert_eq!(new.target, Target::Port(0));

    // Our own beacon, heard back: nothing learned, nothing changed.
    let mine = Rtmp::Data {
        sender: p.addr().unwrap(),
        range: Some((NET, NET)),
        tuples: vec![ext(4000, 4000, 1)],
    };
    let ddp = to_us(&p, RTMP_SOCKET, DDP_RTMP_DATA, &mine);
    let (out, changes) =
        l.handle(&p, &[p_clone(&p)], &ddp, &DdpBody::Rtmp(mine), &mut tables, t);
    assert_eq!((out, changes), (Vec::new(), Vec::new()));
    assert!(tables.best(4000).is_none());
}

#[test]
fn rtmp_request_gets_a_response_with_our_range_and_no_tuples() {
    let t = 1_000_000u64;
    let p = ether(0, (NET, NET + 1), &[ZONE], 9, t);
    let mut tables = Tables::new();
    tables.add_port(0, (NET, NET + 1), true, vec![ZONE.into()], t);
    tables.learn(&ext(2905, 2905, 1), Target::Port(0), PEER, t);
    let mut l = Local::new("router".into());

    let ddp = to_us(&p, RTMP_SOCKET, DDP_RTMP_REQ, &Rtmp::Request);
    let (out, changes) =
        l.handle(&p, &[p_clone(&p)], &ddp, &DdpBody::Rtmp(Rtmp::Request), &mut tables, t);
    assert_eq!(changes, Vec::new());
    assert_eq!(out.len(), 1);
    let (port, dest, r) = rtmp_of(&out[0]);
    assert_eq!((port, dest), (0, &Dest::Node(PEER.node)));
    assert_eq!(
        r,
        Rtmp::Data {
            sender: p.addr().unwrap(),
            range: Some((NET, NET + 1)),
            tuples: Vec::new(),
        }
    );
    let Emit::On { ddp, .. } = &out[0] else { panic!() };
    assert_eq!((ddp.src_socket, ddp.dst_socket, ddp.typ), (RTMP_SOCKET, 200, DDP_RTMP_DATA));
}

#[test]
fn a_nonextended_port_answers_with_the_version_marker() {
    let t = 1_000_000u64;
    let p = ltalk(1, 3, &[ZONE], 200, t);
    let mut tables = Tables::new();
    tables.add_port(1, (3, 3), false, vec![ZONE.into()], t);
    let mut l = Local::new("router".into());
    let ddp = to_us(&p, RTMP_SOCKET, DDP_RTMP_REQ, &Rtmp::Request);
    let (out, _) =
        l.handle(&p, &[p_clone(&p)], &ddp, &DdpBody::Rtmp(Rtmp::Request), &mut tables, t);
    let (_, _, r) = rtmp_of(&out[0]);
    assert!(matches!(r, Rtmp::Data { range: None, .. }), "{r:?}");
}

#[test]
fn rtmp_rdr_honours_split_horizon_or_returns_the_whole_table() {
    let t = 1_000_000u64;
    let a = ether(0, (NET, NET), &[ZONE], 9, t);
    let b = ether(1, (100, 100), &["Other"], 9, t);
    let ports = vec![p_clone(&a), p_clone(&b)];
    let mut tables = Tables::new();
    tables.add_port(0, (NET, NET), true, vec![ZONE.into()], t);
    tables.add_port(1, (100, 100), true, vec!["Other".into()], t);
    // Learned over port 0, so split horizon must hide it from port 0.
    tables.learn(&ext(2905, 2905, 1), Target::Port(0), PEER, t);
    tables.add_zones(2905, &["BabCom".into()], None);
    let mut l = Local::new("router".into());

    let split = Rtmp::Rdr { split_horizon: true };
    let ddp = to_us(&a, RTMP_SOCKET, DDP_RTMP_REQ, &split);
    let (out, _) = l.handle(&a, &ports, &ddp, &DdpBody::Rtmp(split), &mut tables, t);
    let (_, _, r) = rtmp_of(&out[0]);
    let Rtmp::Data { tuples, .. } = &r else { panic!() };
    assert_eq!(tuples, &[ext(100, 100, 0)]);

    let full = Rtmp::Rdr { split_horizon: false };
    let ddp = to_us(&a, RTMP_SOCKET, DDP_RTMP_REQ, &full);
    let (out, _) = l.handle(&a, &ports, &ddp, &DdpBody::Rtmp(full), &mut tables, t);
    let (_, _, r) = rtmp_of(&out[0]);
    let Rtmp::Data { tuples, .. } = &r else { panic!() };
    assert_eq!(tuples, &[ext(NET, NET, 0), ext(100, 100, 0), ext(2905, 2905, 2)]);
}

#[test]
fn two_hundred_tuples_need_three_packets() {
    let t = 1_000_000u64;
    let p = ether(0, (NET, NET), &[ZONE], 9, t);
    let tuples: Vec<NetworkTuple> = (0..200).map(|i| ext(i + 1, i + 1, 1)).collect();
    let out = rtmp_data(&p, Dest::Broadcast, Addr { net: NET, node: 255 }, RTMP_SOCKET, &tuples);
    assert_eq!(out.len(), 3);
    let counts: Vec<usize> = out
        .iter()
        .map(|e| {
            let (_, _, r) = rtmp_of(e);
            let Rtmp::Data { tuples, .. } = r else { panic!() };
            tuples.len()
        })
        .collect();
    // 10 bytes of header and range, then 96 six-byte tuples: 586 exactly.
    assert_eq!(counts, vec![96, 96, 8]);
    for e in &out {
        let Emit::On { ddp, .. } = e else { panic!() };
        assert!(ddp.data.len() <= DDP_MAX, "{} bytes", ddp.data.len());
    }
}

/// `Port` is not `Clone`, and every test needs the port both as the one
/// the datagram arrived on and as a member of `ports`.
fn p_clone(p: &Port) -> Port {
    let now = 1_000_000u64;
    let zones = p.zones.clone();
    let mut c = Port::new(p.id, p.name.clone(), p.kind, p.range, zones, now);
    c.node = p.node;
    c
}

#[test]
fn beacons_go_out_every_ten_seconds_on_claimed_ports() {
    let t = 1_000_000u64;
    let a = ether(0, (NET, NET), &[ZONE], 9, t);
    let mut b = ether(1, (100, 100), &["Other"], 9, t);
    b.node = None;
    let ports = [a, b];
    let mut tables = Tables::new();
    tables.add_port(0, (NET, NET), true, vec![ZONE.into()], t);
    tables.add_port(1, (100, 100), true, vec!["Other".into()], t);
    let mut l = Local::new("router".into());
    let out = l.tick(&ports, &tables, t);
    assert_eq!(out.len(), 1, "{out:?}");
    let (port, dest, r) = rtmp_of(&out[0]);
    assert_eq!((port, dest), (0, &Dest::Broadcast));
    assert_eq!(
        r,
        Rtmp::Data {
            sender: Addr { net: NET, node: 9 },
            range: Some((NET, NET)),
            // Split horizon: the port's own network is not among them.
            tuples: vec![ext(100, 100, 0)],
        }
    );
    let Emit::On { ddp, .. } = &out[0] else { panic!() };
    assert_eq!((ddp.dst, ddp.dst_socket, ddp.src_socket), (Addr { net: 0, node: 255 }, RTMP_SOCKET, RTMP_SOCKET));
    assert!(l.tick(&ports, &tables, t + RTMP_INTERVAL - 1).is_empty());
    assert_eq!(l.tick(&ports, &tables, t + RTMP_INTERVAL).len(), 1);
}

#[test]
fn a_learned_network_without_zones_is_asked_about_and_not_advertised() {
    let t = 1_000_000u64;
    let ports = [ether(0, (NET, NET), &[ZONE], 9, t), ether(1, (100, 100), &["Other"], 9, t)];
    let mut tables = Tables::new();
    tables.add_port(0, (NET, NET), true, vec![ZONE.into()], t);
    tables.add_port(1, (100, 100), true, vec!["Other".into()], t);
    tables.learn(&ext(2905, 2905, 1), Target::Port(0), PEER, t);
    let mut l = Local::new("router".into());
    let out = l.tick(&ports, &tables, t);
    assert_eq!(out.len(), 3);
    let (port, _, r) = rtmp_of(&out[1]);
    assert_eq!(port, 1);
    let Rtmp::Data { tuples, .. } = &r else { panic!() };
    assert_eq!(tuples, &[ext(NET, NET, 0)]);
    let Emit::On { port, dest, ddp } = &out[2] else { panic!() };
    assert_eq!((*port, dest, ddp.dst), (0, &Dest::Node(PEER.node), PEER));
    assert_eq!(Zip::parse(&ddp.data), Some(Zip::Query { nets: vec![2905] }));

    // Once the zones are known, it is advertised and no longer asked about.
    tables.add_zones(2905, &["BabCom".into()], None);
    let out = l.tick(&ports, &tables, t + ZIP_QUERY_INTERVAL);
    assert_eq!(out.len(), 2);
    let (_, _, r) = rtmp_of(&out[1]);
    let Rtmp::Data { tuples, .. } = &r else { panic!() };
    assert_eq!(tuples, &[ext(NET, NET, 0), ext(2905, 2905, 2)]);
}

#[test]
fn what_is_not_routing_traffic_changes_nothing() {
    let t = 1_000_000u64;
    let p = ether(0, (NET, NET), &[ZONE], 9, t);
    let mut tables = Tables::new();
    tables.add_port(0, (NET, NET), true, vec![ZONE.into()], t);
    let mut l = Local::new("router".into());
    let ddp = to_us(&p, 4, 4, &Rtmp::Request);
    let (out, changes) = l.handle(&p, &[p_clone(&p)], &ddp, &DdpBody::Unknown, &mut tables, t);
    assert_eq!((out, changes), (Vec::new(), Vec::new()));
}
