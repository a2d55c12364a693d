//! What the bridge repeats, answers and drops.

use appletalk::addr::MacAddr;
use appletalk::amt::Amt;
use appletalk::bridge::{Action, Bridge, Side, ENTRY_TTL, QUERY_TIMEOUT};
use appletalk::capture::Event;
use appletalk::node::{broadcast_mac, datagram, frame};
use appletalk::wire::{Aarp, Addr, Body, Ddp, DdpBody, Encode, Llap, Packet, AARP, DDP, LLAP_ACK, LLAP_ENQ, LLAP_LONG_DDP, LLAP_SHORT_DDP};

const NET: u16 = 6800;
const US: Addr = Addr { net: NET, node: 7 };
const OUR_MAC: MacAddr = MacAddr(2, 0, 0, 0, 0, 1);
const THEIRS: MacAddr = MacAddr(2, 0, 0, 0, 0, 42);
const ROUTER: MacAddr = MacAddr(2, 0, 0, 0, 0, 99);
const T0: u64 = 1_000_000;

fn on(node: u8) -> Addr {
    Addr { net: NET, node }
}

fn bridge() -> Bridge {
    Bridge::new(US, OUR_MAC, Amt::new(), T0)
}

fn ddp(src: Addr, dst: Addr) -> Ddp {
    datagram(src, 128, dst, 4, 4, vec![1, 2, 3, 4])
}

fn ether(mac: MacAddr, d: Ddp) -> Packet {
    let f = frame(mac, broadcast_mac(), DDP, d.to_bytes());
    Packet { frame: f, body: Body::Ddp(d, DdpBody::Unknown) }
}

fn aarp(op: u16, src: Addr, dst: Addr) -> Packet {
    let a = Aarp { op, src_hw: THEIRS, src, dst_hw: MacAddr::zero(), dst };
    Packet { frame: frame(THEIRS, broadcast_mac(), AARP, a.to_bytes()), body: Body::Aarp(a) }
}

fn long(src: u8, d: &Ddp) -> Llap {
    Llap { dst: d.dst.node, src, typ: LLAP_LONG_DDP, data: d.to_bytes() }
}

fn answered(acts: &[Action]) -> Aarp {
    match acts {
        [Action::ToEther(f)] => Aarp::parse(&f.payload).expect("AARP"),
        other => panic!("expected one AARP packet, got {other:?}"),
    }
}

#[test]
fn our_own_frames_and_phase_1_are_dropped() {
    let mut b = bridge();
    assert!(b.hear_ether(&ether(OUR_MAC, ddp(on(3), on(255))), T0).is_empty());
    let mut p = ether(THEIRS, ddp(on(3), on(255)));
    p.frame.snap = false;
    assert!(b.hear_ether(&p, T0).is_empty());
    assert_eq!(b.live(3), None);
}

#[test]
fn broadcasts_cross_byte_for_byte_even_from_another_network() {
    let mut b = bridge();
    let d = ddp(on(3), Addr { net: 0, node: 255 });
    let want = Llap { dst: 255, src: 3, typ: LLAP_LONG_DDP, data: d.to_bytes() };
    assert_eq!(b.hear_ether(&ether(THEIRS, d), T0), vec![Action::ToLocal(want)]);
    assert_eq!(b.live(3), Some(Side::Ether(THEIRS)));

    let far = ddp(Addr { net: 2905, node: 9 }, on(255));
    let want = Llap { dst: 255, src: US.node, typ: LLAP_LONG_DDP, data: far.to_bytes() };
    assert_eq!(b.hear_ether(&ether(ROUTER, far), T0), vec![Action::ToLocal(want)]);
    // The router's MAC is noted, not a node.
    assert_eq!(b.live(9), None);
    assert_eq!(b.amt.get(&Addr { net: 2905, node: 9 }), Some(ROUTER));
}

#[test]
fn unicast_crosses_only_toward_localtalk() {
    let mut b = bridge();
    b.confirm(12, Side::Local, T0);
    b.confirm(13, Side::Ether(THEIRS), T0);
    let d = ddp(on(3), on(12));
    let want = long(3, &d);
    assert_eq!(b.hear_ether(&ether(THEIRS, d), T0), vec![Action::ToLocal(want)]);
    assert!(b.hear_ether(&ether(THEIRS, ddp(on(3), on(13))), T0).is_empty());
    // To us, and to another network: neither is repeated.
    assert!(b.hear_ether(&ether(THEIRS, ddp(on(3), US)), T0).is_empty());
    assert!(b.hear_ether(&ether(THEIRS, ddp(on(3), Addr { net: 2905, node: 1 })), T0).is_empty());
}

#[test]
fn an_unknown_destination_crosses_and_both_links_are_asked() {
    let mut b = bridge();
    let out = b.hear_ether(&ether(THEIRS, ddp(on(3), on(50))), T0);
    assert_eq!(out.len(), 3);
    assert!(matches!(&out[0], Action::ToLocal(l) if l.typ == LLAP_LONG_DDP && l.dst == 50));
    match &out[1] {
        Action::ToEther(f) => assert_eq!(Aarp::parse(&f.payload).unwrap().op, 1),
        other => panic!("expected a Request, got {other:?}"),
    }
    assert_eq!(out[2], Action::ToLocal(Llap::control(50, 50, LLAP_ENQ)));
    // The next one crosses without asking again.
    assert_eq!(b.hear_ether(&ether(THEIRS, ddp(on(3), on(50))), T0 + 1).len(), 1);
    // Either answer settles it.
    assert!(b.hear_local(&Llap::control(50, 50, LLAP_ACK), T0 + 2).is_empty());
    assert_eq!(b.live(50), Some(Side::Local));
}

#[test]
fn a_node_on_the_wrong_side_is_not_repeated_and_nothing_goes_to_it() {
    let mut b = bridge();
    b.confirm(12, Side::Local, T0);
    let out = b.hear_ether(&ether(THEIRS, ddp(on(12), on(255))), T0);
    assert_eq!(out, vec![Action::ToLocal(Llap::control(12, 12, LLAP_ENQ))]);
    // In doubt: held, and nothing is answered for it.
    assert!(b.hear_ether(&ether(THEIRS, ddp(on(3), on(12))), T0).is_empty());
    assert!(b.hear_ether(&aarp(1, on(3), on(12)), T0).is_empty());
    // The old side stays silent: it moved, and traffic resumes.
    let out = b.step(&Event::Packet { at: 0, port: 0, packet: ether(THEIRS, ddp(on(12), on(255))) }, T0 + QUERY_TIMEOUT);
    assert_eq!(out.len(), 2);
    assert_eq!(out[0], Action::Report("node 12 moved to Ethernet".to_string()));
    assert!(matches!(&out[1], Action::ToLocal(l) if l.typ == LLAP_LONG_DDP));
}

#[test]
fn our_own_address_is_defended_on_both_links() {
    let mut b = bridge();
    for op in [1, 3] {
        let a = answered(&b.hear_ether(&aarp(op, on(3), US), T0));
        assert_eq!((a.op, a.src, a.src_hw, a.dst, a.dst_hw), (2, US, OUR_MAC, on(3), THEIRS));
    }
    let out = b.hear_local(&Llap::control(US.node, US.node, LLAP_ENQ), T0);
    assert_eq!(out, vec![Action::ToLocal(Llap::control(US.node, US.node, LLAP_ACK))]);
}

#[test]
fn a_request_is_answered_from_memory_and_a_probe_is_not() {
    let mut b = bridge();
    b.confirm(12, Side::Local, T0);
    let a = answered(&b.hear_ether(&aarp(1, on(3), on(12)), T0));
    assert_eq!((a.op, a.src, a.src_hw, a.dst), (2, on(12), OUR_MAC, on(3)));
    // A Probe is a claim: LocalTalk is asked first, and the reply is owed.
    let out = b.hear_ether(&aarp(3, on(12), on(12)), T0);
    assert_eq!(out, vec![Action::ToLocal(Llap::control(12, 12, LLAP_ENQ))]);
    let a = answered(&b.hear_local(&Llap::control(12, 12, LLAP_ACK), T0 + 1));
    assert_eq!((a.op, a.src, a.dst, a.dst_hw), (2, on(12), on(12), THEIRS));

    // A node on Ethernet answers for itself, and other networks are not ours.
    b.confirm(13, Side::Ether(THEIRS), T0);
    assert!(b.hear_ether(&aarp(1, on(3), on(13)), T0).is_empty());
    assert!(b.hear_ether(&aarp(1, on(3), Addr { net: 2905, node: 1 }), T0).is_empty());
}

#[test]
fn nothing_is_answered_for_an_id_in_doubt() {
    let mut b = bridge();
    b.confirm(12, Side::Ether(THEIRS), T0);
    b.confirm(12, Side::Local, T0);
    // Ethernet answers the move-check: a real duplicate.
    assert_eq!(b.confirm(12, Side::Ether(THEIRS), T0).len(), 1);
    let out = b.hear_ether(&aarp(1, on(3), on(12)), T0);
    assert_eq!(out, vec![Action::ToLocal(Llap::control(12, 12, LLAP_ENQ))]);
    // LocalTalk claims it, but the contest stands: no proxy answer.
    assert!(b.hear_local(&Llap::control(12, 12, LLAP_ACK), T0).is_empty());
    // It ages out and is learned again from scratch.
    b.expire(T0 + ENTRY_TTL);
    b.hear_local(&Llap::control(12, 12, LLAP_ACK), T0 + ENTRY_TTL);
    assert_eq!(b.live(12), Some(Side::Local));
}

#[test]
fn responses_place_their_sender_and_settle_what_was_asked() {
    let mut b = bridge();
    // A LocalTalk node claims 12; Ethernet is asked by a Probe.
    let a = answered(&b.hear_local(&Llap::control(12, 12, LLAP_ENQ), T0));
    assert_eq!((a.op, a.src), (3, on(12)));
    let out = b.hear_ether(&aarp(2, on(12), on(12)), T0 + 1);
    assert_eq!(out, vec![Action::ToLocal(Llap::control(12, 12, LLAP_ACK))]);
    assert_eq!(b.live(12), Some(Side::Ether(THEIRS)));
    // From another network only the MAC is noted.
    let far = Addr { net: 2905, node: 60 };
    assert!(b.hear_ether(&aarp(2, far, US), T0).is_empty());
    assert_eq!((b.live(60), b.amt.get(&far)), (None, Some(THEIRS)));
}

#[test]
fn localtalk_goes_out_to_where_the_node_is() {
    let mut b = bridge();
    b.confirm(3, Side::Ether(THEIRS), T0);
    let far = Addr { net: 2905, node: 60 };
    b.hear_ether(&ether(ROUTER, ddp(far, on(12))), T0);
    let to = |b: &mut Bridge, dst: Addr| {
        let d = ddp(on(12), dst);
        match b.hear_local(&long(12, &d), T0).as_slice() {
            [Action::ToEther(f)] => {
                assert_eq!((f.src, f.proto, f.snap), (OUR_MAC, DDP, true));
                assert_eq!(f.payload, d.to_bytes());
                f.dst
            }
            other => panic!("expected one frame, got {other:?}"),
        }
    };
    assert_eq!(to(&mut b, on(3)), THEIRS);
    assert_eq!(to(&mut b, far), ROUTER);
    assert_eq!(to(&mut b, on(255)), broadcast_mac());
    assert_eq!(to(&mut b, on(77)), broadcast_mac());
    assert_eq!(b.live(12), Some(Side::Local));
}

#[test]
fn a_short_header_is_lifted_onto_our_network() {
    let mut b = bridge();
    let d = ddp(on(12), on(3));
    let l = Llap { dst: 3, src: 12, typ: LLAP_SHORT_DDP, data: d.to_short_bytes() };
    match b.hear_local(&l, T0).as_slice() {
        [Action::ToEther(f)] => assert_eq!(f.payload, d.to_bytes()),
        other => panic!("expected one frame, got {other:?}"),
    }
    // What cannot be read is dropped, as is every other LLAP type.
    for (typ, data) in [(LLAP_SHORT_DDP, vec![0, 1]), (LLAP_LONG_DDP, vec![0, 1]), (0x84, vec![]), (9, vec![1])] {
        assert!(b.hear_local(&Llap { dst: 3, src: 12, typ, data }, T0).is_empty());
    }
}

#[test]
fn other_events_only_move_the_clock() {
    let mut b = bridge();
    b.confirm(12, Side::Local, T0);
    assert!(b.step(&Event::Dropped(3), T0 + ENTRY_TTL - 1).is_empty());
    assert_eq!(b.live(12), Some(Side::Local));
    assert!(b.step(&Event::Error("x".to_string()), T0 + ENTRY_TTL).is_empty());
    assert_eq!(b.live(12), None);
    let enq = Event::Llap { port: 0, llap: Llap::control(US.node, US.node, LLAP_ENQ) };
    assert_eq!(b.step(&enq, T0).len(), 1);
}

#[test]
fn a_node_that_should_not_be_on_localtalk_is_not_repeated() {
    let d = ddp(on(12), on(255));
    let short = Llap { dst: 255, src: 12, typ: LLAP_SHORT_DDP, data: d.to_short_bytes() };
    for l in [long(12, &d), short] {
        let mut b = bridge();
        b.confirm(12, Side::Ether(THEIRS), T0);
        // Ethernet is asked whether it is still there, and nothing else is sent.
        let a = answered(&b.hear_local(&l, T0));
        assert_eq!((a.op, a.dst), (1, on(12)));
        assert!(b.hear_local(&l, T0).is_empty());
    }
}
