//! The node: claiming an address, defending it, asking questions.

use appletalk::addr::MacAddr;
use appletalk::node::{broadcast_mac, datagram, frame, BadAddr, Want, OUR_SOCKET};
use appletalk::runtime::{ping_answer, ClaimError, Node, Phase, WalkState, ADDRESS_TRIES, LOOKUP_TRIES, NETINFO_INTERVAL, NETINFO_TRIES, PROBE_INTERVAL, PROBE_TRIES, ZONE_TRIES};
use appletalk::wire::{decode, Aarp, Addr, Aep, Atp, Body, DdpBody, Echo, Encode, Frame, Nbp, NbpFunc, NbpTuple, Packet, Zip, AARP, DDP, DDP_AEP, DDP_ATP, DDP_NBP, DDP_ZIP};

const OUR_MAC: MacAddr = MacAddr(0x00, 0x05, 0x02, 0xaa, 0xbb, 0xcc);
const THEIR_MAC: MacAddr = MacAddr(0x08, 0x00, 0x07, 0x11, 0x22, 0x33);
const ROUTER: Addr = Addr { net: 6800, node: 1 };

fn aarp(op: u16, src: Addr, dst: Addr) -> Packet {
    let a = Aarp { op, src_hw: THEIR_MAC, src, dst_hw: MacAddr::zero(), dst };
    Packet { frame: frame(THEIR_MAC, broadcast_mac(), AARP, Vec::new()), body: Body::Aarp(a) }
}

fn from_router(socket: u8, dst: Addr, dst_socket: u8, typ: u8, data: Vec<u8>) -> Packet {
    let d = datagram(ROUTER, socket, dst, dst_socket, typ, data);
    decode(&frame(THEIR_MAC, OUR_MAC, DDP, d.to_bytes()).to_bytes()).unwrap()
}

/// The answer of a router on a cable that spans `range`.
fn net_info(range: (u16, u16)) -> Packet {
    let z = Zip::NetInfoReply {
        flags: 0x80,
        range,
        zone: String::new(),
        multicast: None,
        default_zone: Some("68k Mac Club".to_string()),
    };
    from_router(6, Addr { net: 0, node: 255 }, 6, DDP_ZIP, z.to_bytes())
}

/// The datagram a frame carries.
fn carried(f: &Frame) -> (Addr, u8, Addr, u8, u8) {
    match decode(&f.to_bytes()).unwrap().body {
        Body::Ddp(d, _) => (d.src, d.src_socket, d.dst, d.dst_socket, d.typ),
        other => panic!("expected a datagram, got {other:?}"),
    }
}

/// Waits a whole round of probes out in silence.
fn silent_round(n: &mut Node, mut phase: Phase) -> Phase {
    for _ in 0..PROBE_TRIES {
        assert!(matches!(phase, Phase::Probing { .. }), "{phase:?}");
        assert!(n.probing);
        phase = n.claim_quiet(phase);
    }
    phase
}

fn claimed(want: Want) -> Node {
    let mut n = Node::new(OUR_MAC);
    let phase = n.claim(want, 12345);
    let mut phase = silent_round(&mut n, phase);
    for _ in 0..NETINFO_TRIES {
        assert!(matches!(phase, Phase::Asking { .. }), "{phase:?}");
        phase = n.claim_quiet(phase);
    }
    assert_eq!(phase, Phase::Done { outside: None });
    n
}

/// A node on 6800.9 that a router has answered.
fn routed() -> Node {
    let mut n = Node::new(OUR_MAC);
    let want = Want::Addr(Addr { net: 6800, node: 9 });
    let phase = n.claim(want, 0);
    let phase = silent_round(&mut n, phase);
    assert_eq!(n.claim_heard(want, phase, &net_info((6800, 6800)), 0), Some(Phase::Done { outside: None }));
    n
}

#[test]
fn a_claim_probes_ten_times_and_then_asks_a_router() {
    let a = Addr { net: 6800, node: 9 };
    let mut n = Node::new(OUR_MAC);
    let phase = n.claim(Want::Addr(a), 0);
    let (f, wait) = n.claim_frame(phase).unwrap();
    assert_eq!(wait, PROBE_INTERVAL);
    assert_eq!((f.dst, f.src, f.proto), (broadcast_mac(), OUR_MAC, AARP));
    let p = Aarp::parse(&f.payload).unwrap();
    assert_eq!((p.op, p.src, p.dst, p.src_hw), (3, a, a, OUR_MAC));

    let phase = silent_round(&mut n, phase);
    assert_eq!(phase, Phase::Asking { tries: 1 });
    assert_eq!(n.addr, a);
    assert!(!n.probing);
    let (f, wait) = n.claim_frame(phase).unwrap();
    assert_eq!(wait, NETINFO_INTERVAL);
    assert_eq!(carried(&f), (a, 6, Addr { net: 0, node: 255 }, 6, DDP_ZIP));

    // The answer says where we are.
    let done = n.claim_heard(Want::Addr(a), phase, &net_info((6800, 6800)), 0);
    assert_eq!(done, Some(Phase::Done { outside: None }));
    assert_eq!((n.zone(), n.router()), ("68k Mac Club", Some(ROUTER)));
    assert!(n.claim_frame(Phase::Done { outside: None }).is_none());
}

#[test]
fn without_a_router_the_provisional_address_is_final() {
    let n = claimed(Want::Discover);
    assert!((0xff00..=0xfffe).contains(&n.addr.net));
    assert_eq!((n.zone(), n.router()), ("*", None));
}

#[test]
fn reserved_node_numbers_are_refused() {
    for node in [254, 255] {
        let mut n = Node::new(OUR_MAC);
        let phase = n.claim(Want::Addr(Addr { net: 6800, node }), 0);
        assert_eq!(phase, Phase::Failed(ClaimError::Reserved(node)));
        assert!(n.claim_frame(phase).is_none());
    }
}

#[test]
fn a_requested_address_that_is_taken_is_refused() {
    let a = Addr { net: 6800, node: 9 };
    let mut n = Node::new(OUR_MAC);
    let phase = n.claim(Want::Addr(a), 0);
    let next = n.claim_heard(Want::Addr(a), phase, &aarp(2, a, a), 0);
    assert_eq!(next, Some(Phase::Failed(ClaimError::Taken(a))));
    assert!(!n.probing);
}

#[test]
fn a_probe_that_cannot_be_sent_fails_a_requested_address() {
    let mut n = Node::new(OUR_MAC);
    let phase = n.claim(Want::Addr(Addr { net: 6800, node: 9 }), 0);
    assert_eq!(n.claim_unsent(phase, 0), Phase::Failed(ClaimError::Unsent));
    // A question that cannot be sent only means that no router answers.
    assert_eq!(n.claim_unsent(Phase::Asking { tries: 1 }, 0), Phase::Done { outside: None });
}

#[test]
fn a_collision_means_another_candidate_until_none_is_left() {
    for (want, failure) in [
        (Want::Discover, ClaimError::NoneFree),
        (Want::Net(6800), ClaimError::NoneFreeInRange),
    ] {
        let mut n = Node::new(OUR_MAC);
        let mut phase = n.claim(want, 77);
        let mut seen = 0;
        while let Phase::Probing { addr, tries, .. } = phase {
            seen += 1;
            assert_eq!(tries, 1);
            if want == Want::Net(6800) {
                assert_eq!(addr.net, 6800);
            }
            phase = n.claim_heard(want, phase, &aarp(2, addr, addr), 77 + seen * 131_071).unwrap();
        }
        assert_eq!(seen, ADDRESS_TRIES);
        assert_eq!(phase, Phase::Failed(failure));
    }
}

#[test]
fn a_discovered_address_outside_the_cable_is_picked_again() {
    let mut n = Node::new(OUR_MAC);
    let phase = n.claim(Want::Discover, 5);
    let phase = silent_round(&mut n, phase);
    let phase = n.claim_heard(Want::Discover, phase, &net_info((3, 5)), 5).unwrap();
    match phase {
        Phase::Probing { addr, .. } => assert!((3..=5).contains(&addr.net)),
        other => panic!("expected a new probe, got {other:?}"),
    }
    // This time the range is known, so nobody is asked again.
    assert_eq!(silent_round(&mut n, phase), Phase::Done { outside: None });
    assert!((3..=5).contains(&n.addr.net));
}

#[test]
fn a_requested_address_outside_the_cable_is_kept_and_said_so() {
    let a = Addr { net: 9, node: 9 };
    let mut n = Node::new(OUR_MAC);
    let phase = n.claim(Want::Addr(a), 5);
    let phase = silent_round(&mut n, phase);
    let phase = n.claim_heard(Want::Addr(a), phase, &net_info((3, 5)), 5);
    assert_eq!(phase, Some(Phase::Done { outside: Some((3, 5)) }));
    assert_eq!(n.addr, a);
}

#[test]
fn a_claimed_address_is_defended_and_a_tentative_one_is_not() {
    let a = Addr { net: 6800, node: 9 };
    let asker = Addr { net: 6800, node: 40 };
    let mut n = Node::new(OUR_MAC);
    n.claim(Want::Addr(a), 0);
    assert!(n.heard(0, &aarp(1, asker, a)).is_none());

    let mut n = routed();
    let f = n.heard(0, &aarp(1, asker, a)).unwrap();
    assert_eq!(f.dst, THEIR_MAC);
    let r = Aarp::parse(&f.payload).unwrap();
    assert_eq!((r.op, r.src, r.src_hw, r.dst, r.dst_hw), (2, a, OUR_MAC, asker, THEIR_MAC));
    // And the asker is now somewhere to send to.
    assert_eq!(n.frame_to(OUR_SOCKET, asker, 4, DDP_AEP, vec![1]).dst, THEIR_MAC);
    assert_eq!(n.frame_to(OUR_SOCKET, Addr { net: 6800, node: 41 }, 4, DDP_AEP, vec![1]).dst, broadcast_mac());
}

fn tuple(object: &str, typ: &str, node: u8) -> NbpTuple {
    NbpTuple {
        addr: Addr { net: 6800, node },
        socket: 249,
        enumerator: 0,
        object: object.to_string(),
        typ: typ.to_string(),
        zone: "*".to_string(),
    }
}

fn answer(id: u8, tuples: Vec<NbpTuple>) -> Packet {
    let n = Nbp { func: NbpFunc::LkUpReply, id, tuples };
    from_router(2, Addr { net: 6800, node: 9 }, OUR_SOCKET, DDP_NBP, n.to_bytes())
}

#[test]
fn a_lookup_asks_three_times_and_lists_each_entity_once_in_order() {
    let mut n = routed();
    let mut l = n.lookup("=", "=", "68k Mac Club");
    // With a router the question is a broadcast request to it.
    let f = n.lookup_frame(&l);
    assert_eq!(carried(&f), (Addr { net: 6800, node: 9 }, OUR_SOCKET, ROUTER, 2, DDP_NBP));
    let mut rounds = 0;
    while !l.done {
        rounds += 1;
        n.lookup_heard(&l, &answer(l.id, vec![tuple("b", "y", 2), tuple("a", "z", 3)]));
        n.lookup_heard(&l, &answer(l.id, vec![tuple("a", "x", 4), tuple("b", "y", 2)]));
        n.lookup_heard(&l, &answer(l.id.wrapping_add(1), vec![tuple("c", "c", 5)]));
        l = n.lookup_quiet(l);
    }
    assert_eq!(rounds, LOOKUP_TRIES);
    let names: Vec<(&str, &str)> = l.found.iter().map(|t| (&*t.object, &*t.typ)).collect();
    assert_eq!(names, [("a", "x"), ("a", "z"), ("b", "y")]);
}

#[test]
fn without_a_router_a_lookup_is_broadcast_on_the_cable() {
    let mut n = claimed(Want::Addr(Addr { net: 6800, node: 9 }));
    let l = n.lookup("=", "=", "*");
    let f = n.lookup_frame(&l);
    assert_eq!(carried(&f).2, Addr { net: 0, node: 255 });
    assert_eq!(f.dst, broadcast_mac());
}

/// One page of a router's zone list.
fn page(tid: u16, last: bool, zones: &[&str]) -> Packet {
    let mut data = Vec::new();
    for z in zones {
        data.push(z.len() as u8);
        data.extend(z.bytes());
    }
    let user = [u8::from(last), 0, 0, zones.len() as u8];
    let a = Atp::response(tid, 0, true, false, user, data);
    from_router(6, Addr { net: 6800, node: 9 }, OUR_SOCKET, DDP_ATP, a.to_bytes())
}

#[test]
fn a_zone_walk_pages_to_the_end_and_lists_each_zone_once() {
    let mut n = routed();
    let w = n.zone_list().unwrap();
    assert_eq!(carried(&n.walk_frame(&w)), (Addr { net: 6800, node: 9 }, OUR_SOCKET, ROUTER, 6, DDP_ATP));
    let p = page(w.tid, false, &["A", "B"]);
    n.heard(0, &p);
    let w = n.walk_heard(w, &p);
    assert_eq!((w.start, w.page, w.state), (3, 2, WalkState::Asking));
    // A late answer to the first page changes nothing.
    n.heard(0, &p);
    let w = n.walk_heard(w, &p);
    assert_eq!((w.start, w.page), (3, 2));

    let p = page(w.tid, true, &["B", "C"]);
    n.heard(0, &p);
    let w = n.walk_heard(w, &p);
    assert_eq!(w.state, WalkState::Complete);
    assert_eq!(w.zones, ["A", "B", "C"]);
}

#[test]
fn a_zone_walk_gives_up_on_a_silent_router() {
    let mut n = routed();
    let mut w = n.zone_list().unwrap();
    for _ in 0..ZONE_TRIES {
        assert_eq!(w.state, WalkState::Asking);
        w = n.walk_quiet(w);
    }
    assert_eq!(w.state, WalkState::TimedOut);
    // And there is nothing to walk without a router.
    assert!(claimed(Want::Net(6800)).zone_list().is_none());
}

/// The echo that answers a probe.
fn echo(n: &Node, f: &Frame, target: Addr) -> Packet {
    let sent = match decode(&f.to_bytes()).unwrap().body {
        Body::Ddp(_, DdpBody::Aep(a)) => a,
        other => panic!("expected an echo, got {other:?}"),
    };
    let back = Aep { func: Echo::Reply, data: sent.data };
    let d = datagram(target, 4, n.addr, OUR_SOCKET, DDP_AEP, back.to_bytes());
    Packet { frame: frame(THEIR_MAC, OUR_MAC, DDP, Vec::new()), body: Body::Ddp(d, DdpBody::Aep(back)) }
}

#[test]
fn a_ping_is_answered_only_by_its_own_echo() {
    let n = routed();
    let target = Addr { net: 6800, node: 3 };
    let mut ping = n.ping(target, 2, 99);
    let f = n.ping_frame(&ping).unwrap();
    assert_eq!(carried(&f), (Addr { net: 6800, node: 9 }, OUR_SOCKET, target, 4, DDP_AEP));
    let p = echo(&n, &f, target);
    assert_eq!(ping_answer(&p, ping.magic, 0), Some(target));
    assert_eq!(ping_answer(&p, ping.magic, 1), None);
    assert_eq!(ping_answer(&p, ping.magic ^ 1, 0), None);
    assert_eq!(ping.heard(&p), Some(target));
    // Once is enough, and a late echo does not answer the next probe.
    assert_eq!(ping.heard(&p), None);
    assert_eq!(ping.quiet(), None);
    assert_eq!(ping.heard(&p), None);
}

#[test]
fn a_run_of_probes_says_what_went_unanswered() {
    let mut n = routed();
    let target = Addr { net: 6800, node: 3 };
    let mut ping = n.ping(target, 2, 99);
    assert!(n.ping_frame(&ping).is_some());
    assert_eq!(ping.quiet(), Some("timeout seq=0".to_string()));
    assert!(!ping.any);
    let f = n.ping_frame(&ping).unwrap();
    assert_eq!(ping.heard(&echo(&n, &f, target)), Some(target));
    assert_eq!(ping.quiet(), None);
    assert!(ping.any);
    // Two were asked for, and two were sent.
    assert!(n.ping_frame(&ping).is_none());
    assert_eq!(ping.quiet(), None);
    n.lost();
}

#[test]
fn identifiers_differ_from_one_request_to_the_next() {
    let mut n = Node::new(OUR_MAC);
    assert_eq!((n.next_id(), n.next_id()), (2, 3));
    n.next_id = u16::MAX;
    assert_eq!(n.next_id(), 0);
}

#[test]
fn a_bad_address_says_what_it_was() {
    assert_eq!(appletalk::node::parse_addr("3.256"), Err(BadAddr { text: "3.256".to_string() }));
}
