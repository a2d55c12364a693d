//! Ports: claiming an address, framing what goes out, sorting what comes in.

use appletalk::addr::MacAddr;
use appletalk::node::{broadcast_mac, datagram};
use appletalk::router::ports::{Inbound, Kind, Port, ENQ_INTERVAL, ENQ_TRIES, PROBE_INTERVAL, PROBE_TRIES};
use appletalk::router::{Action, Dest};
use appletalk::wire::{zone_multicast, Aarp, Addr, Body, Ddp, DdpBody, Encode, Frame, Llap, Packet, AARP, DDP, LLAP_ACK, LLAP_ENQ, LLAP_LONG_DDP, LLAP_SHORT_DDP};

const OURS: MacAddr = MacAddr(0x02, 0, 0, 0, 0, 1);
const THEIRS: MacAddr = MacAddr(0x02, 0, 0, 0, 0, 2);
const NET: u16 = 6800;
const ZONE: &str = "68k Mac Club";

fn port(kind: Kind, now: u64) -> Port {
    let name = match kind {
        Kind::Ether { .. } => "eth0",
        Kind::Ltoudp => "ltoudp",
        Kind::Tashtalk => "/dev/ttyAMA0",
    };
    Port::new(1, name.to_string(), kind, (NET, NET), vec![ZONE.to_string()], now)
}

/// The AARP packet inside a `ToEther` action, or a panic naming what came
/// out instead.
fn aarp(a: &Action) -> Aarp {
    match a {
        Action::ToEther { frame, .. } => Aarp::parse(&frame.payload).expect("AARP"),
        other => panic!("expected an Ethernet frame, got {other:?}"),
    }
}

fn llap(a: &Action) -> &Llap {
    match a {
        Action::ToLlap { llap, .. } => llap,
        other => panic!("expected an LLAP frame, got {other:?}"),
    }
}

/// The node the port is currently probing for, read off its own probe.
fn candidate(p: &mut Port, now: u64) -> u8 {
    match p.kind {
        Kind::Ether { .. } => aarp(&p.tick(now)[0]).src.node,
        _ => llap(&p.tick(now)[0]).dst,
    }
}

fn ether_packet(body: Body, src: MacAddr) -> Packet {
    let proto = if matches!(body, Body::Aarp(_)) { AARP } else { DDP };
    let payload = match &body {
        Body::Aarp(a) => a.to_bytes(),
        Body::Ddp(d, _) => d.to_bytes(),
        Body::Unknown => Vec::new(),
    };
    Packet { frame: Frame { dst: broadcast_mac(), src, proto, snap: true, payload }, body }
}

fn ddp(src: Addr, dst: Addr) -> Ddp {
    datagram(src, 128, dst, 129, 4, vec![1, 2, 3, 4])
}

#[test]
fn ether_claim_completes_after_ten_quiet_probes_and_logs_once() {
    let t = 1_000_000u64;
    let mut p = port(Kind::Ether { mac: OURS }, t);
    let node = candidate(&mut p, t);
    // The first tick already sent probe 1; nine more finish the round.
    for i in 1..PROBE_TRIES {
        let out = p.tick(t + PROBE_INTERVAL * u64::from(i));
        assert_eq!(out.len(), 1, "probe {i}");
        let a = aarp(&out[0]);
        assert_eq!((a.op, a.src, a.src_hw), (3, Addr { net: NET, node }, OURS));
        assert!(p.node.is_none(), "claimed before the last probe was answered for");
    }
    // The interval after the tenth probe passes in silence: claimed.
    let out = p.tick(t + PROBE_INTERVAL * u64::from(PROBE_TRIES));
    assert_eq!(p.node, Some(node));
    assert_eq!(p.addr(), Some(Addr { net: NET, node }));
    assert_eq!(out.len(), 1);
    assert!(matches!(out[0], Action::Log(_)), "{:?}", out[0]);
    // And it stays claimed: no more probes, no second log.
    assert_eq!(p.tick(t + PROBE_INTERVAL * 20), Vec::new());
}

#[test]
fn a_probe_response_for_the_candidate_restarts_with_a_different_node() {
    let t = 1_000_000u64;
    let mut p = port(Kind::Ether { mac: OURS }, t);
    let node = candidate(&mut p, t);
    let taken = Aarp {
        op: 2,
        src_hw: THEIRS,
        src: Addr { net: NET, node },
        dst_hw: OURS,
        dst: Addr { net: NET, node },
    };
    let (r, out) = p.inbound_ether(&ether_packet(Body::Aarp(taken), THEIRS), t);
    assert_eq!(r, Inbound::Handled);
    assert_eq!(out, Vec::new());
    // A fresh candidate, and the probe round starts over.
    let next = candidate(&mut p, t);
    assert_ne!(next, node);
    for i in 1..PROBE_TRIES {
        assert_eq!(aarp(&p.tick(t + PROBE_INTERVAL * u64::from(i))[0]).src.node, next);
    }
    assert!(p.node.is_none());
    p.tick(t + PROBE_INTERVAL * u64::from(PROBE_TRIES));
    assert_eq!(p.node, Some(next));
}

#[test]
fn ltoudp_claim_completes_after_eight_enqs() {
    let t = 1_000_000u64;
    let mut p = port(Kind::Ltoudp, t);
    let node = candidate(&mut p, t);
    assert!((128..=254).contains(&node), "{node} is outside the server range");
    for i in 1..ENQ_TRIES {
        let out = p.tick(t + ENQ_INTERVAL * u64::from(i));
        assert_eq!(llap(&out[0]), &Llap::control(node, node, LLAP_ENQ));
        assert!(p.node.is_none());
    }
    let out = p.tick(t + ENQ_INTERVAL * u64::from(ENQ_TRIES));
    assert_eq!(p.node, Some(node));
    // LToUDP programs no firmware: the claim is a log and nothing else.
    assert_eq!(out.len(), 1);
    assert!(matches!(out[0], Action::Log(_)), "{:?}", out[0]);
}

#[test]
fn an_enq_for_the_candidate_restarts_the_ltoudp_claim() {
    let t = 1_000_000u64;
    let mut p = port(Kind::Ltoudp, t);
    let node = candidate(&mut p, t);
    let (r, out) = p.inbound_llap(&Llap::control(node, node, LLAP_ENQ), t);
    assert_eq!(r, Inbound::Handled);
    // We are still probing, so we neither answer nor keep the ID.
    assert_eq!(out, Vec::new());
    let next = candidate(&mut p, t);
    assert_ne!(next, node);
    for i in 1..ENQ_TRIES {
        p.tick(t + ENQ_INTERVAL * u64::from(i));
    }
    p.tick(t + ENQ_INTERVAL * u64::from(ENQ_TRIES));
    assert_eq!(p.node, Some(next));
}

#[test]
fn tashtalk_claim_emits_set_node() {
    let t = 1_000_000u64;
    let mut p = port(Kind::Tashtalk, t);
    let node = candidate(&mut p, t);
    for i in 1..ENQ_TRIES {
        p.tick(t + ENQ_INTERVAL * u64::from(i));
    }
    let out = p.tick(t + ENQ_INTERVAL * u64::from(ENQ_TRIES));
    assert_eq!(p.node, Some(node));
    assert!(matches!(out[0], Action::Log(_)), "{:?}", out[0]);
    assert_eq!(out[1], Action::SetNode { port: 1, node: Some(node) });
}

#[test]
fn emit_picks_short_or_long_header() {
    let t = 1_000_000u64;
    let mut p = port(Kind::Ltoudp, t);
    let node = claim(&mut p, t);

    // Both ends on this port's one network: the short header, whose bytes
    // omit exactly what the LLAP header just said.
    let d = ddp(Addr { net: NET, node }, Addr { net: NET, node: 42 });
    let short = p.emit(&Dest::Node(42), &d).unwrap();
    assert_eq!(
        llap(&short),
        &Llap { dst: 42, src: node, typ: LLAP_SHORT_DDP, data: d.to_short_bytes() }
    );

    // A datagram from another network cannot drop its network numbers.
    let far = ddp(Addr { net: 2905, node: 7 }, Addr { net: NET, node: 42 });
    let long = p.emit(&Dest::Node(42), &far).unwrap();
    assert_eq!(llap(&long), &Llap { dst: 42, src: node, typ: LLAP_LONG_DDP, data: far.to_bytes() });

    // Network 0 means "this cable", so it is short too.
    let unnumbered = ddp(Addr { net: NET, node }, Addr { net: 0, node: 42 });
    assert_eq!(llap(&p.emit(&Dest::Node(42), &unnumbered).unwrap()).typ, LLAP_SHORT_DDP);
}

#[test]
fn emit_needs_a_node_and_maps_the_destination() {
    let t = 1_000_000u64;
    let mut p = port(Kind::Ether { mac: OURS }, t);
    let d = ddp(Addr { net: NET, node: 9 }, Addr { net: NET, node: 42 });
    // Nothing goes out before the claim.
    assert_eq!(p.emit(&Dest::Node(42), &d), None);
    let node = claim(&mut p, t);

    // Unknown address: broadcast, and the cable sorts it out.
    let Action::ToEther { frame, port } = p.emit(&Dest::Node(42), &d).unwrap() else {
        panic!("expected an Ethernet frame");
    };
    assert_eq!(port, 1);
    assert_eq!((frame.dst, frame.src, frame.proto), (broadcast_mac(), OURS, DDP));
    assert_eq!(frame.payload, d.to_bytes());

    // Once gleaned from that node's own traffic, it goes direct.
    let their = ddp(Addr { net: NET, node: 42 }, Addr { net: NET, node });
    p.inbound_ether(&ether_packet(Body::Ddp(their, DdpBody::Unknown), THEIRS), t);
    let a = p.emit(&Dest::Node(42), &d).unwrap();
    let Action::ToEther { frame, .. } = a else { panic!("expected an Ethernet frame") };
    assert_eq!(frame.dst, THEIRS);
}

#[test]
fn emit_uses_the_zone_multicast_on_ether_and_broadcast_on_localtalk() {
    let t = 1_000_000u64;
    let mut e = port(Kind::Ether { mac: OURS }, t);
    let node = claim(&mut e, t);
    let d = ddp(Addr { net: NET, node }, Addr { net: NET, node: 255 });
    let Action::ToEther { frame, .. } = e.emit(&Dest::Zone(ZONE.to_string()), &d).unwrap()
    else {
        panic!("expected an Ethernet frame");
    };
    assert_eq!(frame.dst, zone_multicast(ZONE));
    let Action::ToEther { frame, .. } = e.emit(&Dest::Broadcast, &d).unwrap() else {
        panic!("expected an Ethernet frame");
    };
    assert_eq!(frame.dst, broadcast_mac());

    // LocalTalk has one multicast, and it is the broadcast node ID.
    let mut l = port(Kind::Ltoudp, t);
    let node = claim(&mut l, t);
    let d = ddp(Addr { net: NET, node }, Addr { net: NET, node: 255 });
    assert_eq!(llap(&l.emit(&Dest::Zone(ZONE.to_string()), &d).unwrap()).dst, 255);
    assert_eq!(llap(&l.emit(&Dest::Broadcast, &d).unwrap()).dst, 255);
}

#[test]
fn inbound_llap_answers_enq_on_ltoudp_but_not_on_tashtalk() {
    let t = 1_000_000u64;
    let mut l = port(Kind::Ltoudp, t);
    let node = claim(&mut l, t);
    let (r, out) = l.inbound_llap(&Llap::control(node, node, LLAP_ENQ), t);
    assert_eq!(r, Inbound::Handled);
    assert_eq!(out, vec![Action::ToLlap { port: 1, llap: Llap::control(node, node, LLAP_ACK) }]);
    // Someone else's ID is not ours to deny.
    let other = if node == 200 { 201 } else { 200 };
    assert_eq!(l.inbound_llap(&Llap::control(other, other, LLAP_ENQ), t).1, Vec::new());

    // TashTalk's firmware answers from its node bitmap; a second ACK would
    // be a duplicate on the wire.
    let mut tt = port(Kind::Tashtalk, t);
    let node = claim(&mut tt, t);
    let (r, out) = tt.inbound_llap(&Llap::control(node, node, LLAP_ENQ), t);
    assert_eq!(r, Inbound::Handled);
    assert_eq!(out, Vec::new());
}

#[test]
fn inbound_ether_answers_an_aarp_request_for_our_address_only_after_the_claim() {
    let t = 1_000_000u64;
    let mut p = port(Kind::Ether { mac: OURS }, t);
    let node = candidate(&mut p, t);
    let ours = Addr { net: NET, node };
    let req = || {
        let a = Aarp {
            op: 1,
            src_hw: THEIRS,
            src: Addr { net: NET, node: 42 },
            dst_hw: MacAddr::zero(),
            dst: ours,
        };
        ether_packet(Body::Aarp(a), THEIRS)
    };
    // A probing node answers nothing.
    assert_eq!(p.inbound_ether(&req(), t), (Inbound::Handled, Vec::new()));

    for i in 1..=PROBE_TRIES {
        p.tick(t + PROBE_INTERVAL * u64::from(i));
    }
    assert_eq!(p.node, Some(node));
    let (r, out) = p.inbound_ether(&req(), t);
    assert_eq!(r, Inbound::Handled);
    let Action::ToEther { frame, .. } = &out[0] else { panic!("expected an Ethernet frame") };
    assert_eq!(frame.dst, THEIRS);
    let a = aarp(&out[0]);
    assert_eq!((a.op, a.src, a.src_hw), (2, ours, OURS));
    assert_eq!((a.dst, a.dst_hw), (Addr { net: NET, node: 42 }, THEIRS));
}

#[test]
fn our_own_frames_are_ignored() {
    let t = 1_000_000u64;
    let mut e = port(Kind::Ether { mac: OURS }, t);
    let node = claim(&mut e, t);
    let d = ddp(Addr { net: NET, node }, Addr { net: NET, node: 42 });
    // Heard back off our own cable: the source MAC is ours.
    assert_eq!(
        e.inbound_ether(&ether_packet(Body::Ddp(d, DdpBody::Unknown), OURS), t).0,
        Inbound::Ignore
    );
    // Somebody else's datagram is the router's business.
    let theirs = ddp(Addr { net: NET, node: 42 }, Addr { net: NET, node });
    let (r, out) = e.inbound_ether(&ether_packet(Body::Ddp(theirs, DdpBody::Unknown), THEIRS), t);
    assert!(matches!(r, Inbound::Ddp(_)), "{r:?}");
    assert_eq!(out, Vec::new());

    // On LocalTalk it is the node ID, and our own echoed ACK with it.
    let mut l = port(Kind::Tashtalk, t);
    let node = claim(&mut l, t);
    assert_eq!(l.inbound_llap(&Llap::control(node, node, LLAP_ACK), t).0, Inbound::Ignore);
    let mine = ddp(Addr { net: NET, node }, Addr { net: NET, node: 42 });
    let echo = Llap { dst: 42, src: node, typ: LLAP_SHORT_DDP, data: mine.to_short_bytes() };
    assert_eq!(l.inbound_llap(&echo, t).0, Inbound::Ignore);
}

#[test]
fn inbound_llap_lifts_both_header_forms_and_rejects_the_unparseable() {
    let t = 1_000_000u64;
    let mut p = port(Kind::Ltoudp, t);
    let node = claim(&mut p, t);
    // A short header names no networks: this port's own supplies them.
    let d = ddp(Addr { net: NET, node: 42 }, Addr { net: NET, node });
    let short = Llap { dst: node, src: 42, typ: LLAP_SHORT_DDP, data: d.to_short_bytes() };
    // The lifted header carries the extended length the short one implied.
    let lifted = Ddp { length: 17, ..d };
    assert_eq!(p.inbound_llap(&short, t).0, Inbound::Ddp(lifted));

    let far = ddp(Addr { net: 2905, node: 7 }, Addr { net: NET, node });
    let long = Llap { dst: node, src: 42, typ: LLAP_LONG_DDP, data: far.to_bytes() };
    assert_eq!(p.inbound_llap(&long, t).0, Inbound::Ddp(Ddp { length: 17, ..far }));

    // Fail closed rather than guess at a header we cannot read.
    let runt = Llap { dst: node, src: 42, typ: LLAP_LONG_DDP, data: vec![0, 5, 1, 2, 3] };
    assert_eq!(p.inbound_llap(&runt, t).0, Inbound::Ignore);
}

#[test]
fn zones_are_matched_case_insensitively() {
    let t = 1_000_000u64;
    let p = port(Kind::Ether { mac: OURS }, t);
    assert_eq!(p.default_zone(), ZONE);
    assert!(p.has_zone("68K MAC CLUB"));
    assert!(!p.has_zone("BabCom"));
    assert!(p.extended());
    assert!(!port(Kind::Ltoudp, t).extended());
}

/// Ticks a port through its whole claim and returns the node it took.
fn claim(p: &mut Port, t: u64) -> u8 {
    let (tries, interval) = match p.kind {
        Kind::Ether { .. } => (PROBE_TRIES, PROBE_INTERVAL),
        _ => (ENQ_TRIES, ENQ_INTERVAL),
    };
    for i in 0..=tries {
        p.tick(t + interval * u64::from(i));
    }
    p.node.expect("claimed")
}
