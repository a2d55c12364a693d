//! Which side of the bridge each node is on.

use appletalk::addr::MacAddr;
use appletalk::amt::Amt;
use appletalk::bridge::{Action, Ask, Bridge, Owed, Side, ENTRY_TTL, QUERY_TIMEOUT};
use appletalk::node::broadcast_mac;
use appletalk::wire::{Aarp, Addr, Llap, LLAP_ACK, LLAP_ENQ};

const NET: u16 = 6800;
fn us() -> Addr { Addr { net: NET, node: 7 } }
fn our_mac() -> MacAddr { MacAddr::new(2, 0, 0, 0, 0, 1) }
fn peer_mac() -> MacAddr { MacAddr::new(2, 0, 0, 0, 0, 42) }
fn bridge() -> Bridge { Bridge::new(us(), our_mac(), Amt::new(), t0()) }

/// A time base the tests can move forward deliberately.
fn t0() -> u64 { 1_000_000 }

#[test]
fn seeds_the_table_from_what_the_node_already_gleaned() {
    let mut amt = Amt::new();
    amt.insert(Addr { net: NET, node: 3 }, peer_mac());
    // An address on another network is the router relaying, not a node on
    // our cable, so it stays in the MAC table and out of the node table.
    amt.insert(Addr { net: 2905, node: 9 }, peer_mac());
    let b = Bridge::new(us(), our_mac(), amt, t0());
    assert_eq!(b.live(3), Some(Side::Ether(peer_mac())));
    assert_eq!(b.live(9), None);
}

#[test]
fn a_first_sighting_is_believed() {
    let mut b = bridge();
    assert!(b.confirm(12, Side::Local, t0()).is_empty());
    assert_eq!(b.live(12), Some(Side::Local));
}

#[test]
fn our_own_id_and_the_reserved_ones_are_never_entries() {
    let mut b = bridge();
    for n in [0, 255, us().node] {
        assert!(b.confirm(n, Side::Local, t0()).is_empty());
        assert_eq!(b.live(n), None, "node {n}");
    }
}

#[test]
fn hearing_a_node_on_the_wrong_side_asks_the_side_we_believed() {
    let mut b = bridge();
    b.confirm(12, Side::Local, t0());
    // Now it turns up on Ethernet.
    let out = b.confirm(12, Side::Ether(peer_mac()), t0());
    // An ENQ goes to LocalTalk, asking whether it is still there.
    assert_eq!(out, vec![Action::ToLocal(Llap::control(12, 12, LLAP_ENQ))]);
    // And nothing is trusted about it meanwhile.
    assert_eq!(b.live(12), None);
}

#[test]
fn silence_from_the_old_side_means_the_node_moved() {
    let mut b = bridge();
    let t = t0();
    b.confirm(12, Side::Local, t);
    b.confirm(12, Side::Ether(peer_mac()), t);
    // Nothing answers within the window.
    let out = b.expire(t + QUERY_TIMEOUT);
    assert_eq!(out, vec![Action::Report("node 12 moved to Ethernet".into())]);
    assert_eq!(b.live(12), Some(Side::Ether(peer_mac())));
}

#[test]
fn the_move_works_in_the_other_direction_too() {
    let mut b = bridge();
    let t = t0();
    b.confirm(12, Side::Ether(peer_mac()), t);
    let out = b.confirm(12, Side::Local, t);
    // A Request, not a Probe: this is a resolve, nobody is claiming.
    match &out[..] {
        [Action::ToEther(f)] => {
            let a = Aarp::parse(&f.payload).unwrap();
            assert_eq!(a.op, 1);
            assert_eq!(a.dst, Addr { net: NET, node: 12 });
        }
        other => panic!("expected one AARP Request, got {other:?}"),
    }
    assert_eq!(b.expire(t + QUERY_TIMEOUT), vec![Action::Report("node 12 moved to LocalTalk".into())]);
    assert_eq!(b.live(12), Some(Side::Local));
}

#[test]
fn an_answer_from_the_old_side_means_a_real_duplicate() {
    let mut b = bridge();
    let t = t0();
    b.confirm(12, Side::Local, t);
    b.confirm(12, Side::Ether(peer_mac()), t);
    // LocalTalk answers the move-check: both sides hold the ID.
    let out = b.confirm(12, Side::Local, t);
    assert_eq!(
        out,
        vec![Action::Report(
            "node 12 answered on both sides — a duplicate ID, or a second bridge on this pair"
                .into()
        )]
    );
    // Nothing is trusted about a contested ID.
    assert_eq!(b.live(12), None);
}

#[test]
fn a_contested_entry_ages_out_instead_of_being_refreshed() {
    let mut b = bridge();
    let t = t0();
    b.confirm(12, Side::Local, t);
    b.confirm(12, Side::Ether(peer_mac()), t);
    b.confirm(12, Side::Local, t);
    // Traffic keeps arriving, but a contest must not be kept alive by it.
    b.confirm(12, Side::Local, t + ENTRY_TTL / 2);
    b.expire(t + ENTRY_TTL);
    assert_eq!(b.live(12), None);
    // And the ID is learnable again from scratch.
    b.confirm(12, Side::Local, t + ENTRY_TTL);
    assert_eq!(b.live(12), Some(Side::Local));
}

#[test]
fn an_entry_nobody_confirms_ages_out() {
    let mut b = bridge();
    let t = t0();
    b.confirm(12, Side::Local, t);
    b.expire(t + ENTRY_TTL - 1000);
    assert_eq!(b.live(12), Some(Side::Local));
    b.expire(t + ENTRY_TTL);
    assert_eq!(b.live(12), None);
}

#[test]
fn traffic_keeps_an_uncontested_entry_alive() {
    let mut b = bridge();
    let t = t0();
    b.confirm(12, Side::Local, t);
    b.confirm(12, Side::Local, t + ENTRY_TTL - 1000);
    b.expire(t + ENTRY_TTL);
    assert_eq!(b.live(12), Some(Side::Local));
}

#[test]
fn a_second_query_while_one_is_in_flight_is_suppressed() {
    let mut b = bridge();
    let t = t0();
    assert_eq!(b.ask(12, Ask::Local, Owed::Nothing, None, t).len(), 1);
    assert!(b.ask(12, Ask::Local, Owed::Nothing, None, t).is_empty());
    // Once it times out, asking again is allowed.
    b.expire(t + QUERY_TIMEOUT);
    assert_eq!(b.ask(12, Ask::Local, Owed::Nothing, None, t + QUERY_TIMEOUT).len(), 1);
}

#[test]
fn asking_ethernet_on_behalf_of_a_claim_uses_a_probe() {
    let mut b = bridge();
    let out = b.ask(12, Ask::Ether, Owed::LocalAck, None, t0());
    match &out[..] {
        [Action::ToEther(f)] => {
            let a = Aarp::parse(&f.payload).unwrap();
            // Op 3. A Request would draw silence from a node mid-claim of
            // the same ID and both would end up on it.
            assert_eq!(a.op, 3);
            assert_eq!(a.src, Addr { net: NET, node: 12 });
            assert_eq!(f.dst, broadcast_mac());
        }
        other => panic!("expected one AARP Probe, got {other:?}"),
    }
}

#[test]
fn ethernet_confirming_pays_a_localtalk_node_its_ack() {
    let mut b = bridge();
    let t = t0();
    b.ask(12, Ask::Ether, Owed::LocalAck, None, t);
    let out = b.settle(12, Side::Ether(peer_mac()), t);
    assert_eq!(out, vec![Action::ToLocal(Llap::control(12, 12, LLAP_ACK))]);
}

#[test]
fn localtalk_confirming_pays_an_ethernet_node_its_response() {
    let mut b = bridge();
    let t = t0();
    let asker = Addr { net: NET, node: 3 };
    b.ask(12, Ask::Local, Owed::EtherResponse { to: asker, to_mac: peer_mac() }, None, t);
    let out = b.settle(12, Side::Local, t);
    match &out[..] {
        [Action::ToEther(f)] => {
            let a = Aarp::parse(&f.payload).unwrap();
            assert_eq!(a.op, 2);
            // We answer *as* the LocalTalk node, giving our own MAC.
            assert_eq!(a.src, Addr { net: NET, node: 12 });
            assert_eq!(a.src_hw, our_mac());
            assert_eq!(a.dst, asker);
        }
        other => panic!("expected one AARP Response, got {other:?}"),
    }
}

#[test]
fn a_debt_is_never_paid_by_the_wrong_side() {
    let mut b = bridge();
    let t = t0();
    // Owed an ACK if *Ethernet* holds the ID; LocalTalk answering proves
    // the opposite and settles nothing.
    b.ask(12, Ask::Ether, Owed::LocalAck, None, t);
    assert!(b.settle(12, Side::Local, t).is_empty());
}

#[test]
fn a_debt_is_never_paid_after_the_creditor_gave_up() {
    let mut b = bridge();
    let t = t0();
    b.ask(12, Ask::Ether, Owed::LocalAck, None, t);
    b.expire(t + QUERY_TIMEOUT);
    assert!(b.settle(12, Side::Ether(peer_mac()), t + QUERY_TIMEOUT).is_empty());
}

#[test]
fn a_proxy_response_is_never_sent_against_evidence() {
    let mut b = bridge();
    let t = t0();
    let asker = Addr { net: NET, node: 3 };
    b.ask(12, Ask::Local, Owed::EtherResponse { to: asker, to_mac: peer_mac() }, None, t);
    // Ethernet answers for the ID while the question is still out.
    b.confirm(12, Side::Ether(peer_mac()), t);
    // Answering as the LocalTalk node now would hijack an Ethernet node's
    // address, so the debt is cancelled rather than paid.
    assert!(b.settle(12, Side::Local, t).is_empty());
}
