//! The AURP peers.

use appletalk::router::aurp::{null_upd, succ, Peer, Receiver, Sender, LAST_HEARD, NA, ND, NDC, NRC, RECONNECT_BACKOFF, RETRIES, RETRY, TICKLE_RETRIES, UPDATE_INTERVAL};
use appletalk::router::pages::{zi_pages, MAX_BODY};
use appletalk::router::peers::{Peers, MAX_STRANGERS, RECONNECT_SCAN, ZI_REREQUEST};
use appletalk::router::table::Tables;
use appletalk::router::{Action, Target};
use appletalk::wire::{Addr, Aurp, Cmd, Ddp, Di, DomainHeader, Encode, EventTuple, Ipv4Addr, NetworkTuple};

const LOCAL: Ipv4Addr = Ipv4Addr(192, 0, 2, 1);
const REMOTE: Ipv4Addr = Ipv4Addr(192, 0, 2, 2);

/// The one peer these tests talk to.
fn at(ps: &Peers) -> &Peer {
    ps.peers.iter().find(|p| p.addr == REMOTE).unwrap()
}

fn at_mut(ps: &mut Peers) -> &mut Peer {
    ps.peers.iter_mut().find(|p| p.addr == REMOTE).unwrap()
}

/// A packet as the peer would send it: our DI as destination, its own as source.
fn routing(conn: u16, seq: u16, cmd: Cmd) -> Vec<u8> {
    Aurp::Routing {
        dh: DomainHeader { dst: Di::Ip(LOCAL), src: Di::Ip(REMOTE) },
        conn,
        seq,
        cmd,
    }
    .to_bytes()
}

/// Every `ToPeer` action, decoded.
fn sent(acts: &[Action]) -> Vec<Aurp> {
    acts.iter()
        .filter_map(|a| match a {
            Action::ToPeer { bytes, .. } => Some(Aurp::parse(bytes).expect("we emit valid AURP")),
            _ => None,
        })
        .collect()
}

/// The `ToPeer` payloads as they go on the wire.
fn raw(acts: &[Action]) -> Vec<Vec<u8>> {
    acts.iter()
        .filter_map(|a| match a {
            Action::ToPeer { bytes, .. } => Some(bytes.clone()),
            _ => None,
        })
        .collect()
}

fn cmds(acts: &[Action]) -> Vec<(u16, u16, Cmd)> {
    sent(acts)
        .into_iter()
        .map(|p| match p {
            Aurp::Routing { conn, seq, cmd, .. } => (conn, seq, cmd),
            Aurp::Data { .. } => panic!("expected a routing packet"),
        })
        .collect()
}

fn t(range: (u16, u16), d: u8) -> NetworkTuple {
    NetworkTuple { range, extended: true, distance: d }
}

fn open_rsp(rate: i16) -> Cmd {
    Cmd::OpenRsp { env: 0, rate_or_err: rate, options: Vec::new() }
}

fn open_req() -> Cmd {
    Cmd::OpenReq { sui: Cmd::ALL_SUI, version: 1, options: Vec::new() }
}

#[test]
fn full_dialog() {
    let t0 = 1_000_000u64;
    let mut tb = Tables::new();
    tb.add_port(0, (6800, 6800), true, vec!["68k Mac Club".into()], t0);
    let mut ps = Peers::new(Di::Ip(LOCAL), true, &vec!["peer".to_string()], 7, t0);
    ps.resolved("peer", REMOTE, t0);

    // The reconnect scan opens our receiver connection.
    let (a, _) = ps.tick(&mut tb, t0 + RECONNECT_SCAN);
    let a1 = match cmds(&a).as_slice() {
        [(c, 0, Cmd::OpenReq { sui, version, options })] => {
            assert_eq!((*sui, *version, options.len()), (Cmd::ALL_SUI, 1, 0));
            *c
        }
        other => panic!("expected one Open-Req, got {other:?}"),
    };

    // Open-Rsp accepted: we ask for their routes.
    let (a, ..) = ps.packet(REMOTE, &routing(a1, 0, open_rsp(1)), &mut tb, t0);
    assert_eq!(cmds(&a), vec![(a1, 0, Cmd::RiReq { sui: Cmd::ALL_SUI })]);
    assert_eq!(at(&ps).receiver, Receiver::WaitRiRsp);

    // Their Open-Req opens the other direction; we are their data sender.
    let b1 = 0xb001;
    let (a, ..) = ps.packet(REMOTE, &routing(b1, 0, open_req()), &mut tb, t0);
    assert_eq!(cmds(&a), vec![(b1, 0, open_rsp(1))]);
    assert_eq!(at(&ps).sender, Sender::Connected);

    // Their routes arrive.
    let ri = Cmd::RiRsp { last: true, tuples: vec![t((2905, 2905), 0)] };
    let (a, ch, _) = ps.packet(REMOTE, &routing(a1, 1, ri), &mut tb, t0);
    assert_eq!(cmds(&a), vec![(a1, 1, Cmd::RiAck { szi: true })]);
    assert_eq!(ch.len(), 1);
    assert_eq!(tb.best(2905).unwrap().distance, 1);
    assert_eq!(at(&ps).receiver, Receiver::Connected);

    // The zones for them, which nothing acknowledges.
    let zi = Cmd::ZiRsp { extended: None, zones: vec![(2905, "BabCom".into())] };
    let (a, ..) = ps.packet(REMOTE, &routing(a1, 0, zi), &mut tb, t0);
    assert!(a.is_empty());
    assert_eq!(tb.zones(2905).unwrap().names, vec!["BabCom".to_string()]);

    // They ask for ours.
    let (a, ..) = ps.packet(REMOTE, &routing(b1, 0, Cmd::RiReq { sui: Cmd::ALL_SUI }), &mut tb, t0);
    let ours = Cmd::RiRsp { last: true, tuples: vec![t((6800, 6800), 0)] };
    assert_eq!(cmds(&a), vec![(b1, 1, ours)]);
    assert_eq!(at(&ps).sender, Sender::WaitRiRspAck);

    // Their ack asks for the zones too.
    let (a, ..) = ps.packet(REMOTE, &routing(b1, 1, Cmd::RiAck { szi: true }), &mut tb, t0);
    let zones = Cmd::ZiRsp { extended: None, zones: vec![(6800, "68k Mac Club".into())] };
    assert_eq!(cmds(&a), vec![(b1, 0, zones)]);
    assert_eq!(at(&ps).sender, Sender::Connected);

    // An update: a network appeared behind them.
    let ev = EventTuple { code: NA, tuple: t((3000, 3000), 0) };
    let (a, ch, _) = ps.packet(REMOTE, &routing(a1, 2, Cmd::RiUpd { events: vec![ev] }), &mut tb, t0);
    assert_eq!(cmds(&a), vec![(a1, 2, Cmd::RiAck { szi: true })]);
    assert_eq!(ch.len(), 1);
    assert_eq!(tb.best(3000).unwrap().distance, 1);
    let zi = Cmd::ZiRsp { extended: None, zones: vec![(3000, "BabCom".into())] };
    let (a, ..) = ps.packet(REMOTE, &routing(a1, 0, zi), &mut tb, t0);
    assert!(a.is_empty());

    // Ninety seconds of quiet and we tickle them.
    let quiet = t0 + LAST_HEARD + 1000;
    let (a, _) = ps.tick(&mut tb, quiet);
    assert_eq!(cmds(&a), vec![(a1, 0, Cmd::Tickle)]);
    assert_eq!(at(&ps).receiver, Receiver::WaitTickleAck);
    let (a, ..) = ps.packet(REMOTE, &routing(a1, 0, Cmd::TickleAck), &mut tb, quiet);
    assert!(a.is_empty());
    assert_eq!(at(&ps).receiver, Receiver::Connected);

    // They go down.
    let (a, ch, _) = ps.packet(REMOTE, &routing(a1, 3, Cmd::Rd { code: -1 }), &mut tb, quiet);
    assert_eq!(cmds(&a), vec![(a1, 3, Cmd::RiAck { szi: false })]);
    assert!(!ch.is_empty());
    assert!(tb.best(2905).is_none() && tb.best(3000).is_none());
    assert!(tb.best(6800).is_some()); // our own cable survives
    assert_eq!(at(&ps).receiver, Receiver::Unconnected);
    assert_eq!(at(&ps).sender, Sender::Unconnected);
}

/// Bring a peer up in both directions and hand back its two connection IDs.
/// The peer's one network, 2905, is fully zoned, so nothing here is
/// zoneless and the ZI re-request timer stays quiet.
fn connected(tb: &mut Tables, now: u64) -> (Peers, u16, u16) {
    let mut ps = Peers::new(Di::Ip(LOCAL), true, &vec!["peer".to_string()], 7, now);
    ps.resolved("peer", REMOTE, now);
    let (a, _) = ps.tick(tb, now + RECONNECT_SCAN);
    let a1 = match cmds(&a).as_slice() {
        [(c, ..)] => *c,
        other => panic!("expected one Open-Req, got {other:?}"),
    };
    ps.packet(REMOTE, &routing(a1, 0, open_rsp(1)), tb, now);
    let ri = Cmd::RiRsp { last: true, tuples: vec![t((2905, 2905), 0)] };
    ps.packet(REMOTE, &routing(a1, 1, ri), tb, now);
    let zi = Cmd::ZiRsp { extended: None, zones: vec![(2905, "BabCom".into())] };
    ps.packet(REMOTE, &routing(a1, 0, zi), tb, now);
    let b1 = 0xb001;
    ps.packet(REMOTE, &routing(b1, 0, open_req()), tb, now);
    ps.packet(REMOTE, &routing(b1, 0, Cmd::RiReq { sui: Cmd::ALL_SUI }), tb, now);
    ps.packet(REMOTE, &routing(b1, 1, Cmd::RiAck { szi: false }), tb, now);
    (ps, a1, b1)
}

#[test]
fn duplicate_sequence_re_acks_without_re_learning() {
    let t0 = 1_000_000u64;
    let mut tb = Tables::new();
    tb.add_port(0, (6800, 6800), true, vec!["A".into()], t0);
    let (mut ps, a1, _) = connected(&mut tb, t0);
    let ev = EventTuple { code: NA, tuple: t((3000, 3000), 4) };
    ps.packet(REMOTE, &routing(a1, 2, Cmd::RiUpd { events: vec![ev] }), &mut tb, t0);
    assert_eq!(tb.best(3000).unwrap().distance, 5);
    // The same sequence number again, carrying a different distance: it is
    // re-acked and not re-applied.
    let stale = EventTuple { code: NA, tuple: t((3000, 3000), 9) };
    let upd = Cmd::RiUpd { events: vec![stale] };
    let (a, ch, _) = ps.packet(REMOTE, &routing(a1, 2, upd), &mut tb, t0);
    assert_eq!(cmds(&a), vec![(a1, 2, Cmd::RiAck { szi: true })]);
    assert!(ch.is_empty());
    assert_eq!(tb.best(3000).unwrap().distance, 5);
    assert_eq!(at(&ps).seq_recv, 3);
}

#[test]
fn sequence_ahead_closes_the_receiver_and_increments_the_conn_id() {
    let t0 = 1_000_000u64;
    let mut tb = Tables::new();
    tb.add_port(0, (6800, 6800), true, vec!["A".into()], t0);
    let (mut ps, a1, _) = connected(&mut tb, t0);
    // Expecting 2, receiving 3.
    let ev = EventTuple { code: NA, tuple: t((3000, 3000), 0) };
    let upd = Cmd::RiUpd { events: vec![ev] };
    let (a, ch, _) = ps.packet(REMOTE, &routing(a1, 3, upd), &mut tb, t0);
    assert!(a.is_empty() && ch.is_empty());
    assert!(tb.best(3000).is_none());
    assert_eq!(at(&ps).receiver, Receiver::Unconnected);
    assert_eq!(at(&ps).conn_local, succ(a1));
}

#[test]
fn open_rsp_error_leaves_the_receiver_unconnected() {
    let t0 = 1_000_000u64;
    let mut tb = Tables::new();
    let mut ps = Peers::new(Di::Ip(LOCAL), true, &vec!["peer".to_string()], 7, t0);
    ps.resolved("peer", REMOTE, t0);
    let (a, _) = ps.tick(&mut tb, t0 + RECONNECT_SCAN);
    let a1 = match cmds(&a).as_slice() { [(c, ..)] => *c, o => panic!("{o:?}") };
    let (a, ..) = ps.packet(REMOTE, &routing(a1, 0, open_rsp(-5)), &mut tb, t0);
    assert!(a.is_empty());
    assert_eq!(at(&ps).receiver, Receiver::Unconnected);
    assert_eq!(at(&ps).conn_local, succ(a1));
}

#[test]
fn open_req_is_refused_on_version_and_on_options() {
    let t0 = 1_000_000u64;
    let mut tb = Tables::new();
    let mut ps = Peers::new(Di::Ip(LOCAL), true, &vec![], 7, t0);
    let bad = Cmd::OpenReq { sui: Cmd::ALL_SUI, version: 2, options: Vec::new() };
    let (a, ..) = ps.packet(REMOTE, &routing(7, 0, bad), &mut tb, t0);
    assert_eq!(cmds(&a), vec![(7, 0, open_rsp(-5))]);
    let opts = Cmd::OpenReq { sui: Cmd::ALL_SUI, version: 1, options: vec![(1, vec![9])] };
    let (a, ..) = ps.packet(REMOTE, &routing(7, 0, opts), &mut tb, t0);
    assert_eq!(cmds(&a), vec![(7, 0, open_rsp(-4))]);
    assert_eq!(at(&ps).sender, Sender::Unconnected);
}

#[test]
fn tickle_after_ninety_seconds_quiet() {
    let t0 = 1_000_000u64;
    let mut tb = Tables::new();
    tb.add_port(0, (6800, 6800), true, vec!["A".into()], t0);
    let (mut ps, a1, _) = connected(&mut tb, t0);
    // Ninety seconds exactly is not yet quiet enough.
    let (a, _) = ps.tick(&mut tb, t0 + LAST_HEARD);
    assert!(sent(&a).is_empty());
    let (a, _) = ps.tick(&mut tb, t0 + LAST_HEARD + 1000);
    assert_eq!(cmds(&a), vec![(a1, 0, Cmd::Tickle)]);
    assert_eq!(at(&ps).receiver, Receiver::WaitTickleAck);
}

#[test]
fn ten_unanswered_tickles_drop_the_peers_routes() {
    let t0 = 1_000_000u64;
    let mut tb = Tables::new();
    tb.add_port(0, (6800, 6800), true, vec!["A".into()], t0);
    let (mut ps, a1, b1) = connected(&mut tb, t0);
    let mut now = t0 + LAST_HEARD + 1000;
    let (a, _) = ps.tick(&mut tb, now);
    assert_eq!(cmds(&a), vec![(a1, 0, Cmd::Tickle)]);
    // Nine more, ten tickles in all.
    for _ in 1..TICKLE_RETRIES {
        now += RETRY;
        let (a, ch) = ps.tick(&mut tb, now);
        assert_eq!(cmds(&a), vec![(a1, 0, Cmd::Tickle)]);
        assert!(ch.is_empty());
    }
    assert!(tb.best(2905).is_some());
    // The next timeout gives up: the routes go and the other direction is
    // probed with a null RI-Upd.
    now += RETRY;
    let (a, ch) = ps.tick(&mut tb, now);
    assert!(tb.best(2905).is_none());
    assert!(!ch.is_empty());
    assert_eq!(at(&ps).receiver, Receiver::Unconnected);
    assert_eq!(cmds(&a), vec![(b1, 2, null_upd())]);
    assert_eq!(at(&ps).sender, Sender::WaitRiUpdAck);
}

#[test]
fn rd_is_acked_and_routes_dropped() {
    let t0 = 1_000_000u64;
    let mut tb = Tables::new();
    tb.add_port(0, (6800, 6800), true, vec!["A".into()], t0);
    let (mut ps, a1, _) = connected(&mut tb, t0);
    let (a, ch, _) = ps.packet(REMOTE, &routing(a1, 2, Cmd::Rd { code: -1 }), &mut tb, t0);
    assert_eq!(cmds(&a), vec![(a1, 2, Cmd::RiAck { szi: false })]);
    assert!(!ch.is_empty());
    assert!(tb.best(2905).is_none());
    assert!(tb.best(6800).is_some()); // our own cable survives
    assert_eq!(at(&ps).receiver, Receiver::Unconnected);
    assert_eq!(at(&ps).sender, Sender::Unconnected);
}

#[test]
fn exported_tuples_split_into_three_ri_rsps_each_waiting_for_its_ack() {
    let t0 = 1_000_000u64;
    let mut tb = Tables::new();
    // Six bytes an extended tuple: 500 of them need three packets.
    for i in 0..500u16 {
        tb.add_port(0, (1000 + i, 1000 + i), true, vec!["A".into()], t0);
    }
    let per = MAX_BODY / 6;
    let b1 = 0xb001;
    let mut ps = Peers::new(Di::Ip(LOCAL), true, &vec![], 7, t0);
    ps.packet(REMOTE, &routing(b1, 0, open_req()), &mut tb, t0);

    let (a, ..) = ps.packet(REMOTE, &routing(b1, 0, Cmd::RiReq { sui: Cmd::ALL_SUI }), &mut tb, t0);
    match cmds(&a).as_slice() {
        [(c, 1, Cmd::RiRsp { last: false, tuples })] => assert_eq!((*c, tuples.len()), (b1, per)),
        o => panic!("expected the first page, got {o:?}"),
    }
    // Nothing more goes out until that page is acked.
    let (a, _) = ps.tick(&mut tb, t0);
    assert!(sent(&a).is_empty());

    let (a, ..) = ps.packet(REMOTE, &routing(b1, 1, Cmd::RiAck { szi: false }), &mut tb, t0);
    match cmds(&a).as_slice() {
        [(_, 2, Cmd::RiRsp { last: false, tuples })] => assert_eq!(tuples.len(), per),
        o => panic!("expected the second page, got {o:?}"),
    }
    let (a, ..) = ps.packet(REMOTE, &routing(b1, 2, Cmd::RiAck { szi: false }), &mut tb, t0);
    match cmds(&a).as_slice() {
        [(_, 3, Cmd::RiRsp { last: true, tuples })] => assert_eq!(tuples.len(), 500 - 2 * per),
        o => panic!("expected the last page, got {o:?}"),
    }
    let (a, ..) = ps.packet(REMOTE, &routing(b1, 3, Cmd::RiAck { szi: false }), &mut tb, t0);
    assert!(sent(&a).is_empty());
    assert_eq!(at(&ps).sender, Sender::Connected);
}

#[test]
fn na_then_nd_collapse_to_nothing() {
    let t0 = 1_000_000u64;
    let mut tb = Tables::new();
    tb.add_port(0, (6800, 6800), true, vec!["A".into()], t0);
    let (mut ps, _, _) = connected(&mut tb, t0);
    // A network behind a router on our cable: nothing to say until its
    // zones are known.
    let ch = tb.learn(&t((7100, 7100), 0), Target::Port(1), Addr { net: 6800, node: 9 }, t0);
    ps.route_changed(&ch, &tb);
    assert!(at(&ps).pending.is_empty());
    // Zones complete: now it is exportable.
    let ch = tb.add_zones(7100, &vec!["C".to_string()], None);
    ps.route_changed(&ch, &tb);
    assert_eq!(at(&ps).pending, vec![EventTuple { code: NA, tuple: t((7100, 7100), 1) }]);
    // And it goes away again before the update interval elapses.
    let ch = tb.remove(Target::Port(1), 7100);
    ps.route_changed(&ch, &tb);
    assert!(at(&ps).pending.is_empty());
    let (a, _) = ps.tick(&mut tb, t0 + UPDATE_INTERVAL);
    assert!(sent(&a).is_empty());
}

#[test]
fn an_exported_network_that_moves_onto_a_tunnel_becomes_nrc() {
    let t0 = 1_000_000u64;
    let mut tb = Tables::new();
    tb.add_port(0, (6800, 6800), true, vec!["A".into()], t0);
    let (mut ps, _, _) = connected(&mut tb, t0);
    tb.learn(&t((7100, 7100), 0), Target::Port(1), Addr { net: 6800, node: 9 }, t0);
    let ch = tb.add_zones(7100, &vec!["C".to_string()], None);
    ps.route_changed(&ch, &tb);
    at_mut(&mut ps).pending.clear();
    // The port route goes and only the tunnel one is left.
    tb.learn(&t((7100, 7100), 0), Target::Peer(REMOTE), Addr { net: 0, node: 0 }, t0);
    let ch = tb.remove(Target::Port(1), 7100);
    ps.route_changed(&ch, &tb);
    assert_eq!(at(&ps).pending[0].code, NRC);
}

#[test]
fn conflicting_open_req_probes_the_old_connection() {
    let t0 = 1_000_000u64;
    let mut tb = Tables::new();
    tb.add_port(0, (6800, 6800), true, vec!["A".into()], t0);
    let (mut ps, _, b1) = connected(&mut tb, t0);
    // A second Open-Req with a fresh ID: the old connection gets probed
    // and the Open-Req itself is dropped.
    let (a, ..) = ps.packet(REMOTE, &routing(0xb002, 0, open_req()), &mut tb, t0);
    assert_eq!(cmds(&a), vec![(b1, 2, null_upd())]);
    assert_eq!(at(&ps).sender, Sender::WaitRiUpdAck);
    // Acked, so the old connection is alive and the Open-Req was bogus.
    let (a, ..) = ps.packet(REMOTE, &routing(b1, 2, Cmd::RiAck { szi: false }), &mut tb, t0);
    assert!(sent(&a).is_empty());
    assert_eq!(at(&ps).sender, Sender::Connected);
    assert_eq!(at(&ps).conn_remote, b1);
}

#[test]
fn an_unanswered_probe_closes_the_sender_and_the_next_open_req_is_answered() {
    let t0 = 1_000_000u64;
    let mut tb = Tables::new();
    tb.add_port(0, (6800, 6800), true, vec!["A".into()], t0);
    let (mut ps, _, _) = connected(&mut tb, t0);
    let (a, ..) = ps.packet(REMOTE, &routing(0xb002, 0, open_req()), &mut tb, t0);
    let probe = raw(&a);
    let mut now = t0;
    for _ in 1..RETRIES {
        now += RETRY;
        let (a, _) = ps.tick(&mut tb, now);
        // An RI-Upd retransmission is the same bytes, same sequence number.
        assert_eq!(raw(&a), probe);
    }
    now += RETRY;
    ps.tick(&mut tb, now);
    assert_eq!(at(&ps).sender, Sender::Unconnected);
    let (a, ..) = ps.packet(REMOTE, &routing(0xb002, 0, open_req()), &mut tb, now);
    assert_eq!(cmds(&a), vec![(0xb002, 0, open_rsp(1))]);
    assert_eq!(at(&ps).conn_remote, 0xb002);
}

#[test]
fn unknown_peer_dropped_with_open_peering_off() {
    let t0 = 1_000_000u64;
    let mut tb = Tables::new();
    let mut ps = Peers::new(Di::Ip(LOCAL), false, &vec![], 7, t0);
    let p = routing(1, 0, open_req());
    let (a, ..) = ps.packet(REMOTE, &p, &mut tb, t0);
    assert!(sent(&a).is_empty());
    assert!(matches!(a.as_slice(), [Action::Log(_)]));
    assert!(!ps.known(REMOTE));
    // One log per address per minute, no more.
    let (a, ..) = ps.packet(REMOTE, &p, &mut tb, t0 + 30_000);
    assert!(a.is_empty());
    let (a, ..) = ps.packet(REMOTE, &p, &mut tb, t0 + 61_000);
    assert!(matches!(a.as_slice(), [Action::Log(_)]));
}

#[test]
fn shutdown_emits_rd_to_sender_connected_peers_only() {
    let t0 = 1_000_000u64;
    let mut tb = Tables::new();
    tb.add_port(0, (6800, 6800), true, vec!["A".into()], t0);
    let (mut ps, _, b1) = connected(&mut tb, t0);
    // A second peer we never became data sender to.
    ps.resolved("other", Ipv4Addr::new(192, 0, 2, 3), t0);
    let a = ps.shutdown(t0);
    assert_eq!(cmds(&a), vec![(b1, 2, Cmd::Rd { code: -1 })]);
    assert_eq!(at(&ps).sender, Sender::WaitRdAck);
    let d = ps.dump(t0);
    assert!(d.contains("peer") && d.contains("192.0.2.2") && d.contains("wait rd ack"), "{d}");
    assert!(d.contains("other") && d.contains("192.0.2.3"), "{d}");
}

#[test]
fn data_packets_come_back_for_forwarding_and_touch_no_state() {
    let t0 = 1_000_000u64;
    let mut tb = Tables::new();
    let mut ps = Peers::new(Di::Ip(LOCAL), true, &vec![], 7, t0);
    let ddp = Ddp {
        hops: 0,
        length: 0,
        checksum: 0,
        dst: Addr { net: 2905, node: 3 },
        dst_socket: 4,
        src: Addr { net: 6800, node: 1 },
        src_socket: 4,
        typ: 3,
        data: vec![1, 2, 3],
    }
    .to_bytes();
    let dh = DomainHeader { dst: Di::Ip(LOCAL), src: Di::Ip(REMOTE) };
    let bytes = Aurp::Data { dh, ddp: ddp.clone() }.to_bytes();
    let (a, ch, back) = ps.packet(REMOTE, &bytes, &mut tb, t0);
    assert!(a.is_empty() && ch.is_empty());
    assert_eq!(back, Some(ddp.clone()));
    assert_eq!(at(&ps).receiver, Receiver::Unconnected);
    // And the other way: a datagram wrapped for the peer.
    match ps.forward(REMOTE, &ddp) {
        Action::ToPeer { peer, bytes } => {
            assert_eq!(peer, REMOTE);
            let dh = DomainHeader { dst: Di::Ip(REMOTE), src: Di::Ip(LOCAL) };
            assert_eq!(Aurp::parse(&bytes), Some(Aurp::Data { dh, ddp }));
        }
        o => panic!("expected a ToPeer, got {o:?}"),
    }
}

#[test]
fn zoneless_tunnel_networks_are_re_requested() {
    let t0 = 1_000_000u64;
    let mut tb = Tables::new();
    tb.add_port(0, (6800, 6800), true, vec!["A".into()], t0);
    let (mut ps, a1, _) = connected(&mut tb, t0);
    // A second network from the peer, whose ZI-Rsp never arrives.
    let ev = EventTuple { code: NA, tuple: t((3000, 3000), 0) };
    ps.packet(REMOTE, &routing(a1, 2, Cmd::RiUpd { events: vec![ev] }), &mut tb, t0);
    let (a, _) = ps.tick(&mut tb, t0 + ZI_REREQUEST);
    assert_eq!(cmds(&a), vec![(a1, 0, Cmd::ZiReq { nets: vec![3000] })]);
}

#[test]
fn gzn_and_gdzl_are_answered_not_supported() {
    let t0 = 1_000_000u64;
    let mut tb = Tables::new();
    tb.add_port(0, (6800, 6800), true, vec!["A".into()], t0);
    let (mut ps, _, b1) = connected(&mut tb, t0);
    let req = Cmd::GznReq { zone: "A".into() };
    let (a, ..) = ps.packet(REMOTE, &routing(b1, 0, req), &mut tb, t0);
    assert_eq!(cmds(&a), vec![(b1, 0, Cmd::GznRsp { zone: "A".into(), tuples: None })]);
    let (a, ..) = ps.packet(REMOTE, &routing(b1, 0, Cmd::GdzlReq { start: 0 }), &mut tb, t0);
    let rsp = Cmd::GdzlRsp { last: true, start: -1, zones: Vec::new() };
    assert_eq!(cmds(&a), vec![(b1, 0, rsp)]);
}

#[test]
fn a_stranger_gets_nothing_back_before_we_are_its_data_sender() {
    let t0 = 1_000_000u64;
    let mut tb = Tables::new();
    tb.add_port(0, (6800, 6800), true, vec!["68k Mac Club".into()], t0);
    let mut ps = Peers::new(Di::Ip(LOCAL), true, &vec![], 7, t0);
    // Open peering makes a peer of whoever writes to us, and a fresh peer
    // has `conn_remote` 0 -- so conn 0 is exactly the forger's guess.
    for cmd in [
        Cmd::ZiReq { nets: vec![6800] },
        Cmd::GznReq { zone: "68k Mac Club".into() },
        Cmd::GdzlReq { start: 0 },
        Cmd::Tickle,
        Cmd::RiReq { sui: Cmd::ALL_SUI },
    ] {
        let (a, ..) = ps.packet(REMOTE, &routing(0, 0, cmd), &mut tb, t0);
        assert!(sent(&a).is_empty(), "answered a stranger: {a:?}");
    }
    assert_eq!(at(&ps).sender, Sender::Unconnected);
}

#[test]
fn an_ri_req_during_wait_rd_ack_does_not_abandon_the_rd() {
    let t0 = 1_000_000u64;
    let mut tb = Tables::new();
    tb.add_port(0, (6800, 6800), true, vec!["A".into()], t0);
    let (mut ps, _, b1) = connected(&mut tb, t0);
    ps.shutdown(t0);
    let (a, ..) = ps.packet(REMOTE, &routing(b1, 0, Cmd::RiReq { sui: Cmd::ALL_SUI }), &mut tb, t0);
    assert!(sent(&a).is_empty());
    assert_eq!(at(&ps).sender, Sender::WaitRdAck);
    // The RD is still the packet outstanding, so it is what retransmits.
    let (a, _) = ps.tick(&mut tb, t0 + RETRY);
    assert_eq!(cmds(&a), vec![(b1, 2, Cmd::Rd { code: -1 })]);
}

#[test]
fn five_unanswered_ri_reqs_close_the_receiver() {
    let t0 = 1_000_000u64;
    let mut tb = Tables::new();
    let mut ps = Peers::new(Di::Ip(LOCAL), true, &vec!["peer".to_string()], 7, t0);
    ps.resolved("peer", REMOTE, t0);
    let (a, _) = ps.tick(&mut tb, t0 + RECONNECT_SCAN);
    let a1 = match cmds(&a).as_slice() { [(c, ..)] => *c, o => panic!("{o:?}") };
    let (a, ..) = ps.packet(REMOTE, &routing(a1, 0, open_rsp(1)), &mut tb, t0);
    assert_eq!(cmds(&a), vec![(a1, 0, Cmd::RiReq { sui: Cmd::ALL_SUI })]);
    // Four retransmissions, five RI-Reqs in all, and the peer never answers.
    let mut now = t0;
    for _ in 1..RETRIES {
        now += RETRY;
        let (a, _) = ps.tick(&mut tb, now);
        assert_eq!(cmds(&a), vec![(a1, 0, Cmd::RiReq { sui: Cmd::ALL_SUI })]);
    }
    now += RETRY;
    let (a, _) = ps.tick(&mut tb, now);
    assert!(sent(&a).is_empty());
    assert_eq!(at(&ps).receiver, Receiver::Unconnected);
    assert_eq!(at(&ps).conn_local, succ(a1));
    // Unconnected again, so the reconnect scan can have another go.
    now += RECONNECT_BACKOFF + RECONNECT_SCAN;
    let (a, _) = ps.tick(&mut tb, now);
    match cmds(&a).as_slice() {
        [(c, 0, Cmd::OpenReq { .. })] => assert_eq!(*c, succ(a1)),
        o => panic!("expected a fresh Open-Req, got {o:?}"),
    }
}

#[test]
fn five_unanswered_open_reqs_close_the_receiver() {
    let t0 = 1_000_000u64;
    let mut tb = Tables::new();
    let mut ps = Peers::new(Di::Ip(LOCAL), true, &vec!["peer".to_string()], 7, t0);
    ps.resolved("peer", REMOTE, t0);
    let (a, _) = ps.tick(&mut tb, t0 + RECONNECT_SCAN);
    let a1 = match cmds(&a).as_slice() { [(c, ..)] => *c, o => panic!("{o:?}") };
    let mut now = t0 + RECONNECT_SCAN;
    for _ in 1..RETRIES {
        now += RETRY;
        let (a, _) = ps.tick(&mut tb, now);
        assert_eq!(cmds(&a), vec![(a1, 0, open_req())]);
    }
    now += RETRY;
    let (a, _) = ps.tick(&mut tb, now);
    assert!(sent(&a).is_empty());
    assert_eq!(at(&ps).receiver, Receiver::Unconnected);
}

#[test]
fn an_inbound_open_req_opens_our_own_direction_at_once() {
    let t0 = 1_000_000u64;
    let mut tb = Tables::new();
    let mut ps = Peers::new(Di::Ip(LOCAL), true, &vec![], 7, t0);
    let (a, ..) = ps.packet(REMOTE, &routing(0xb001, 0, open_req()), &mut tb, t0);
    match cmds(&a).as_slice() {
        [(0xb001, 0, rsp), (c, 0, req @ Cmd::OpenReq { .. })] => {
            assert_eq!(*rsp, open_rsp(1));
            assert_eq!(*req, open_req());
            assert_ne!(*c, 0xb001); // our own ID, not theirs
        }
        o => panic!("expected an Open-Rsp then our own Open-Req, got {o:?}"),
    }
    assert_eq!(at(&ps).receiver, Receiver::WaitOpenRsp);
}

#[test]
fn pending_events_collapse_per_network() {
    let t0 = 1_000_000u64;
    let mut tb = Tables::new();
    tb.add_port(0, (6800, 6800), true, vec!["A".into()], t0);
    let (mut ps, _, _) = connected(&mut tb, t0);
    let pending = |ps: &Peers| at(ps).pending.clone();
    let queue = |ps: &mut Peers, code: u8, d: u8| {
        at_mut(ps).queue(EventTuple { code, tuple: t((7100, 7100), d) })
    };
    // NA then NDC stays an addition, at the new distance.
    queue(&mut ps, NA, 1);
    queue(&mut ps, NDC, 4);
    assert_eq!(pending(&ps), vec![EventTuple { code: NA, tuple: t((7100, 7100), 4) }]);
    // ND then NA is a distance change: the peer never lost the network.
    at_mut(&mut ps).pending.clear();
    queue(&mut ps, ND, 0);
    queue(&mut ps, NA, 2);
    assert_eq!(pending(&ps), vec![EventTuple { code: NDC, tuple: t((7100, 7100), 2) }]);
    // NDC after NDC: the last one wins.
    queue(&mut ps, NDC, 3);
    queue(&mut ps, NDC, 7);
    assert_eq!(pending(&ps), vec![EventTuple { code: NDC, tuple: t((7100, 7100), 7) }]);
    // One entry per network throughout, whatever else is queued.
    queue(&mut ps, NA, 1);
    at_mut(&mut ps).queue(EventTuple { code: NA, tuple: t((7200, 7200), 1) });
    assert_eq!(pending(&ps).len(), 2);
}

#[test]
fn a_zone_list_too_long_for_one_packet_uses_subcode_two() {
    let t0 = 1_000_000u64;
    let mut tb = Tables::new();
    // Thirty-two-character names, 35 body bytes each: 60 overflow MAX_BODY.
    let names: Vec<String> = (0..60).map(|i| format!("{i:032}")).collect();
    tb.add_port(0, (6800, 6800), true, names.clone(), t0);
    let pages = zi_pages(&vec![6800], &tb);
    assert!(pages.len() > 1);
    let mut seen = 0;
    for p in &pages {
        match p {
            Cmd::ZiRsp { extended: Some(total), zones } => {
                assert_eq!(*total as usize, names.len());
                assert!(zones.len() * 35 <= MAX_BODY);
                seen += zones.len();
            }
            o => panic!("expected subcode 2, got {o:?}"),
        }
    }
    assert_eq!(seen, names.len());
}

#[test]
fn the_peer_dump_is_in_aligned_columns() {
    let t0 = 1_000_000u64;
    let mut tb = Tables::new();
    tb.add_port(0, (6800, 6800), true, vec!["A".into()], t0);
    let (mut ps, ..) = connected(&mut tb, t0);
    ps.resolved("other", Ipv4Addr::new(192, 0, 2, 203), t0);
    at_mut(&mut ps).receiver = Receiver::WaitTickleAck;
    let dump = ps.dump(t0 + 3000);
    let lines: Vec<&str> = dump.lines().collect();
    assert_eq!(lines.len(), 2, "{dump}");
    assert!(lines[0].starts_with("peer                  192.0.2.2        recv wait tickle-ack conn "), "{dump}");
    assert!(lines[1].starts_with("other                 192.0.2.203      recv unconnected     conn "), "{dump}");
    for column in ["  recv ", " next seq ", "  send ", " pending"] {
        assert_eq!(lines[0].find(column), lines[1].find(column), "{column} in {dump}");
    }
}

/// How long a command's body is, subcode and all: the domain header and the
/// sequence, command and flags before it are the same for every command.
fn body_len(cmd: Cmd) -> usize {
    routing(1, 0, cmd).len() - routing(1, 0, Cmd::Tickle).len()
}

#[test]
fn no_zone_reply_has_a_body_that_fragments() {
    let t0 = 1_000_000u64;
    // Forty 32-byte names would be 1400 bytes of tuples, and 1404 of body.
    let names = |from: usize, n: usize| -> Vec<String> {
        (from..from + n).map(|i| format!("{i:032}")).collect()
    };
    for per_net in [1, 3, 39, 40, 41, 60] {
        let mut tb = Tables::new();
        let nets: Vec<u16> = (0..6).map(|i| 100 + i).collect();
        for (i, &net) in nets.iter().enumerate() {
            tb.add_port(i as u8, (net, net), true, names(i * 100, per_net), t0);
        }
        let mut seen = 0;
        for p in zi_pages(&nets, &tb) {
            if let Cmd::ZiRsp { zones, .. } = &p {
                seen += zones.len();
            }
            let n = body_len(p);
            assert!(n <= MAX_BODY, "{n} bytes with {per_net} names");
        }
        assert_eq!(seen, 6 * per_net);
    }
    let mut tb = Tables::new();
    tb.add_port(0, (100, 100), true, names(0, 40), t0);
    assert_eq!(zi_pages(&vec![100], &tb).len(), 2);
}

/// The `i`th of many strangers.
fn stranger(i: u16) -> Ipv4Addr {
    Ipv4Addr(198, 51, (i / 256) as u8, (i % 256) as u8)
}

#[test]
fn open_peering_holds_a_bounded_number_of_strangers() {
    let t0 = 1_000_000u64;
    let mut tb = Tables::new();
    let mut ps = Peers::new(Di::Ip(LOCAL), true, &vec!["peer".to_string()], 7, t0);
    let p = routing(1, 0, open_req());
    for i in 0..MAX_STRANGERS as u16 {
        ps.packet(stranger(i), &p, &mut tb, t0);
        assert!(ps.known(stranger(i)));
    }
    let one_more = stranger(MAX_STRANGERS as u16);
    let (a, ..) = ps.packet(one_more, &p, &mut tb, t0);
    assert!(matches!(a.as_slice(), [Action::Log(_)]));
    assert!(!ps.known(one_more));
    // A configured peer is exempt.
    ps.resolved("peer", REMOTE, t0);
    assert!(ps.known(REMOTE));
}

#[test]
fn a_stranger_that_went_away_is_dropped_with_its_routes() {
    let t0 = 1_000_000u64;
    let mut tb = Tables::new();
    let mut ps = Peers::new(Di::Ip(LOCAL), true, &vec!["peer".to_string()], 7, t0);
    ps.resolved("peer", REMOTE, t0);
    let other = stranger(1);
    let (a, ..) = ps.packet(other, &routing(0xb001, 0, Cmd::Tickle), &mut tb, t0);
    assert!(a.is_empty());
    assert!(ps.known(other));
    tb.learn(&t((2905, 2905), 0), Target::Peer(other), Addr { net: 0, node: 0 }, t0);

    let (_, ch) = ps.tick(&mut tb, t0 + LAST_HEARD - 1);
    assert!(ps.known(other) && ch.is_empty());
    let (_, ch) = ps.tick(&mut tb, t0 + LAST_HEARD);
    assert!(!ps.known(other));
    assert_eq!(ch.len(), 1);
    assert!(tb.best(2905).is_none());
    // The configured one stays, connected or not.
    assert!(ps.known(REMOTE));
}

#[test]
fn a_datagram_that_has_used_up_its_hops_is_not_handed_on() {
    let t0 = 1_000_000u64;
    let mut tb = Tables::new();
    let mut ps = Peers::new(Di::Ip(LOCAL), true, &vec![], 7, t0);
    let with_hops = |hops: u8| {
        let ddp = Ddp {
            hops,
            length: 0,
            checksum: 0,
            dst: Addr { net: 2905, node: 3 },
            dst_socket: 4,
            src: Addr { net: 6800, node: 1 },
            src_socket: 4,
            typ: 3,
            data: vec![1, 2, 3],
        };
        let dh = DomainHeader { dst: Di::Ip(LOCAL), src: Di::Ip(REMOTE) };
        Aurp::Data { dh, ddp: ddp.to_bytes() }.to_bytes()
    };
    assert!(ps.packet(REMOTE, &with_hops(14), &mut tb, t0).2.is_some());
    assert!(ps.packet(REMOTE, &with_hops(15), &mut tb, t0).2.is_none());
}

#[test]
fn what_is_not_aurp_is_ignored() {
    let t0 = 1_000_000u64;
    let mut tb = Tables::new();
    let mut ps = Peers::new(Di::Ip(LOCAL), true, &vec![], 7, t0);
    let (a, ch, back) = ps.packet(REMOTE, &[1, 2, 3], &mut tb, t0);
    assert!(a.is_empty() && ch.is_empty() && back.is_none());
    assert!(!ps.known(REMOTE));
}
