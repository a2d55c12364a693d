//! What a node decides about the packets it hears, and what it asks.

use appletalk::addr::MacAddr;
use appletalk::amt::Amt;
use appletalk::node::{aarp_action, aarp_response, broadcast_mac, datagram, echo_data, echo_match, frame, glean, lookup_replies, lookup_request, mac_for, merge, netinfo_verdict, next_start, parse_addr, pick_address, probe, zone_list_request, zone_reply_matches, AarpAction, NetInfo, Target, OUR_SOCKET};
use appletalk::wire::{Aarp, Addr, Aep, Atp, Body, DdpBody, Echo, Encode, Func, Nbp, NbpFunc, NbpTuple, Packet, Zip, ZipAtp, AARP, DDP, DDP_AEP, DDP_ATP, DDP_NBP, DDP_ZIP};

/// The zone the node asks about: none in particular.
const REQUESTED_ZONE: &str = "";

fn aarp_packet(op: u16, src: Addr, src_hw: MacAddr, dst: Addr) -> Packet {
    let body = Body::Aarp(Aarp {
        op,
        src_hw,
        src,
        // A request leaves the target hardware address unknown.
        dst_hw: MacAddr::zero(),
        dst,
    });
    Packet { frame: frame(src_hw, broadcast_mac(), AARP, Vec::new()), body }
}

const OURS: Addr = Addr { net: 0xff00, node: 137 };
const OUR_MAC: MacAddr = MacAddr(0x00, 0x05, 0x02, 0xaa, 0xbb, 0xcc);
const THEIR_MAC: MacAddr = MacAddr(0x08, 0x00, 0x07, 0x11, 0x22, 0x33);

#[test]
fn picked_addresses_stay_inside_the_startup_range() {
    // Node IDs 0, $FE and $FF are reserved on Ethernet; nets come from the
    // startup range. Sweep enough seeds to catch an off-by-one at either end.
    for seed in 0..2000u64 {
        let a = pick_address(seed.wrapping_mul(2_654_435_761));
        assert!((0xff00..=0xfffe).contains(&a.net), "net {:#06x}", a.net);
        assert!((1..=253).contains(&a.node), "node {}", a.node);
    }
}

#[test]
fn a_probe_carries_a_zero_target_hardware_address() {
    let p = probe(OURS, OUR_MAC);
    assert_eq!(p.op, 3);
    assert_eq!(p.src, OURS);
    assert_eq!(p.dst, OURS);
    assert_eq!(p.dst_hw, MacAddr::zero());
    let b = p.to_bytes();
    assert_eq!(&b[..6], &[0x00, 0x01, 0x80, 0x9b, 6, 4]);
    assert_eq!(&b[6..8], &[0x00, 0x03]);
}

#[test]
fn a_response_for_our_tentative_address_is_a_conflict() {
    let p = aarp_packet(2, OURS, THEIR_MAC, OURS);
    assert!(matches!(aarp_action(&p, OURS, OUR_MAC, true), AarpAction::Conflict));
}

#[test]
fn another_nodes_probe_for_the_same_address_is_a_conflict() {
    // Two nodes probing at once: the receiver gives up too.
    let p = aarp_packet(3, OURS, THEIR_MAC, OURS);
    assert!(matches!(aarp_action(&p, OURS, OUR_MAC, true), AarpAction::Conflict));
}

#[test]
fn a_probe_for_our_claimed_address_is_answered_not_conceded() {
    // Once claimed, a Probe for our address must be defended —
    // conceding it here would let the newcomer take our address.
    let p = aarp_packet(3, OURS, THEIR_MAC, OURS);
    match aarp_action(&p, OURS, OUR_MAC, false) {
        AarpAction::AnswerTo(m) => assert_eq!(m, THEIR_MAC),
        other => panic!("expected AnswerTo, got {other:?}"),
    }
}

#[test]
fn our_own_probe_coming_back_is_not_a_conflict() {
    let p = aarp_packet(3, OURS, OUR_MAC, OURS);
    assert!(matches!(aarp_action(&p, OURS, OUR_MAC, true), AarpAction::Ignore));
}

#[test]
fn we_answer_requests_for_our_address_only_once_claimed() {
    let asking = aarp_packet(1, Addr { net: 3, node: 1 }, THEIR_MAC, OURS);
    // While probing, a node responds to nothing.
    assert!(matches!(aarp_action(&asking, OURS, OUR_MAC, true), AarpAction::Ignore));
    match aarp_action(&asking, OURS, OUR_MAC, false) {
        AarpAction::AnswerTo(m) => assert_eq!(m, THEIR_MAC),
        other => panic!("expected AnswerTo, got {other:?}"),
    }
    // Someone else's address is not our business.
    let other = aarp_packet(1, Addr { net: 3, node: 1 }, THEIR_MAC, Addr { net: 3, node: 9 });
    assert!(matches!(aarp_action(&other, OURS, OUR_MAC, false), AarpAction::Ignore));
}

#[test]
fn a_response_names_us_as_the_source_and_the_asker_as_the_target() {
    let them = Addr { net: 3, node: 1 };
    let r = aarp_response(OURS, OUR_MAC, them, THEIR_MAC);
    assert_eq!((r.op, r.src, r.src_hw), (2, OURS, OUR_MAC));
    assert_eq!((r.dst, r.dst_hw), (them, THEIR_MAC));
}

#[test]
fn gleaning_takes_mappings_from_data_and_responses_but_never_probes() {
    let mut amt = Amt::new();
    let them = Addr { net: 3, node: 1 };

    // A probe's source address is tentative and must not be cached.
    glean(&mut amt, &aarp_packet(3, them, THEIR_MAC, them));
    assert_eq!(amt, Amt::new());

    glean(&mut amt, &aarp_packet(2, them, THEIR_MAC, OURS));
    assert_eq!(amt.get(&them), Some(THEIR_MAC));

    // A DDP datagram carries both addresses too.
    let mut amt = Amt::new();
    let d = datagram(them, 6, OURS, 128, DDP_ZIP, vec![1]);
    let p = Packet {
        frame: frame(THEIR_MAC, OUR_MAC, DDP, Vec::new()),
        body: Body::Ddp(d, DdpBody::Unknown),
    };
    glean(&mut amt, &p);
    assert_eq!(amt.get(&them), Some(THEIR_MAC));
}

#[test]
fn datagram_recomputes_its_length_and_orders_the_addresses() {
    // A ZIP GetNetInfo request: 7 bytes of data from 65280.128:6 to 0.255:6.
    let d = datagram(
        Addr { net: 0xff00, node: 128 },
        6,
        Addr { net: 0, node: 255 },
        6,
        DDP_ZIP,
        vec![5, 0, 0, 0, 0, 0, 0],
    );
    let b = d.to_bytes();
    assert_eq!(b[0], 0); // hops 0, and the top 2 bits of a length below 256
    assert_eq!(b[1], 20); // 13 header + 7 data, recomputed
    // Both network numbers come before either node number.
    assert_eq!(&b[4..8], &[0x00, 0x00, 0xff, 0x00]);
    assert_eq!((b[8], b[9]), (255, 128));
    assert_eq!((b[10], b[11], b[12]), (6, 6, DDP_ZIP));
}

/// A ZIP GetNetInfo reply from router 3.1, for cable range 3–5, zone
/// "Engineering", optionally correcting an invalid requested zone.
fn netinfo(range: (u16, u16), zone: &str, default_zone: Option<&str>) -> Packet {
    netinfo_to(OURS, range, zone, default_zone)
}

/// The same reply, addressed wherever the router chose to send it. Real
/// routers broadcast it rather than directing it at the requester.
fn netinfo_to(dst: Addr, range: (u16, u16), zone: &str, default_zone: Option<&str>) -> Packet {
    let z = Zip::NetInfoReply {
        flags: 0,
        range,
        zone: zone.to_string(),
        multicast: Some(MacAddr(0x09, 0x00, 0x07, 0x00, 0x00, 0x0f)),
        default_zone: default_zone.map(str::to_string),
    };
    let d = datagram(Addr { net: 3, node: 1 }, 6, dst, 6, DDP_ZIP, z.to_bytes());
    Packet {
        frame: frame(THEIR_MAC, OUR_MAC, DDP, Vec::new()),
        body: Body::Ddp(d, DdpBody::Zip(z)),
    }
}

#[test]
fn a_provisional_net_inside_the_cable_range_is_kept() {
    let p = netinfo((0xff00, 0xff0a), "Engineering", None);
    let (verdict, zone, router) = netinfo_verdict(&p, OURS, "Engineering").unwrap();
    assert_eq!(verdict, NetInfo::Keep);
    assert_eq!(zone, "Engineering");
    assert_eq!(router, Addr { net: 3, node: 1 });
}

#[test]
fn a_provisional_net_at_the_top_of_the_cable_range_is_kept() {
    // range.0..range.1 alone would exclude this end; pin it explicitly.
    // OURS.net is 0xff00, placed at range.1 here rather than range.0.
    let p = netinfo((0xfef0, 0xff00), "Engineering", None);
    let (verdict, _, _) = netinfo_verdict(&p, OURS, "Engineering").unwrap();
    assert_eq!(verdict, NetInfo::Keep);
}

#[test]
fn a_provisional_net_outside_the_cable_range_forces_a_repick() {
    let p = netinfo((3, 5), "Engineering", None);
    let (verdict, _, _) = netinfo_verdict(&p, OURS, "Engineering").unwrap();
    assert_eq!(verdict, NetInfo::Repick { range: (3, 5) });
}

#[test]
fn an_inverted_cable_range_is_rejected_rather_than_underflowing() {
    let p = netinfo((0xff0a, 0xff00), "Engineering", None);
    assert!(netinfo_verdict(&p, OURS, "Engineering").is_none());
}

#[test]
fn a_reply_addressed_to_a_different_node_is_not_our_verdict() {
    // Capture is promiscuous and replies are sometimes broadcast; a reply
    // meant for another booting node must not be adopted as ours.
    let p = netinfo((0xff00, 0xff0a), "Engineering", None);
    let other = Addr { net: 3, node: 9 };
    assert!(netinfo_verdict(&p, other, "Engineering").is_none());
}

#[test]
fn a_broadcast_reply_echoing_our_requested_zone_is_ours() {
    // What a real router actually sends: the reply goes to the broadcast
    // address, not to the requester, and echoes the empty zone name we
    // asked for while supplying the cable's default zone.
    let ours = Addr { net: 6800, node: 99 };
    let bcast = Addr { net: 0, node: 255 };
    let p = netinfo_to(bcast, (6800, 6800), REQUESTED_ZONE, Some("68k Mac Club"));
    let (verdict, zone, router) = netinfo_verdict(&p, ours, REQUESTED_ZONE).unwrap();
    assert_eq!(verdict, NetInfo::Keep);
    assert_eq!(zone, "68k Mac Club");
    assert_eq!(router, Addr { net: 3, node: 1 });
}

#[test]
fn a_broadcast_reply_for_a_different_zone_is_not_ours() {
    // Broadcast means the address cannot tell replies apart, so the echoed
    // zone name is the only thing distinguishing another node's from ours.
    let bcast = Addr { net: 0, node: 255 };
    let p = netinfo_to(bcast, (0xff00, 0xff0a), "Accounts", None);
    assert!(netinfo_verdict(&p, OURS, "Engineering").is_none());
}

#[test]
fn an_invalid_requested_zone_is_replaced_by_the_default_zone() {
    // The reply echoes back the zone we asked for — "Nonesuch" — and
    // appends the cable's real default, which is the one we adopt.
    let p = netinfo((3, 5), "Nonesuch", Some("Engineering"));
    let (_, zone, _) = netinfo_verdict(&p, OURS, "Nonesuch").unwrap();
    assert_eq!(zone, "Engineering");
}

#[test]
fn other_zip_traffic_is_not_a_netinfo_verdict() {
    let z = Zip::Query { nets: vec![3] };
    let d = datagram(Addr { net: 3, node: 1 }, 6, OURS, 6, DDP_ZIP, z.to_bytes());
    let p = Packet {
        frame: frame(THEIR_MAC, OUR_MAC, DDP, Vec::new()),
        body: Body::Ddp(d, DdpBody::Zip(z)),
    };
    assert!(netinfo_verdict(&p, OURS, "Engineering").is_none());
}

fn lkup_reply(id: u8, tuples: Vec<NbpTuple>) -> Packet {
    let n = Nbp { func: NbpFunc::LkUpReply, id, tuples };
    let d = datagram(Addr { net: 3, node: 42 }, 2, OURS, OUR_SOCKET, DDP_NBP, n.to_bytes());
    Packet {
        frame: frame(THEIR_MAC, OUR_MAC, DDP, Vec::new()),
        body: Body::Ddp(d, DdpBody::Nbp(n)),
    }
}

fn tuple(object: &str, node: u8) -> NbpTuple {
    NbpTuple {
        addr: Addr { net: 3, node },
        socket: 253,
        enumerator: 0,
        object: object.to_string(),
        typ: "AFPServer".to_string(),
        zone: "Engineering".to_string(),
    }
}

#[test]
fn a_broadcast_request_carries_the_wildcard_and_our_return_address() {
    let n = lookup_request(NbpFunc::BrRq, 7, OURS, OUR_SOCKET, "=", "=", "Engineering");
    assert_eq!(n.tuples.len(), 1);
    // The tuple's address field is where the responders send their answers.
    assert_eq!(n.tuples[0].addr, OURS);
    assert_eq!(n.tuples[0].socket, OUR_SOCKET);
    assert_eq!((&*n.tuples[0].object, &*n.tuples[0].typ), ("=", "="));

    let b = n.to_bytes();
    assert_eq!(b[0], 0x11); // function 1 (BrRq) in the high nibble, 1 tuple
    assert_eq!(b[1], 7); // the NBP id
}

#[test]
fn replies_are_matched_by_nbp_id() {
    let p = lkup_reply(7, vec![tuple("Mac", 42)]);
    assert_eq!(lookup_replies(&p, 7).len(), 1);
    // A reply to somebody else's lookup, or to one we have moved past.
    assert!(lookup_replies(&p, 8).is_empty());
    // Not NBP at all.
    assert!(lookup_replies(&netinfo((3, 5), "Engineering", None), 7).is_empty());
}

#[test]
fn merging_drops_tuples_we_already_have() {
    // Requests are retransmitted, so the same entity answers repeatedly.
    let mut all = Vec::new();
    merge(&mut all, &[tuple("Mac", 42), tuple("Printer", 43)]);
    merge(&mut all, &[tuple("Mac", 42)]);
    assert_eq!(all.len(), 2);
}

#[test]
fn merging_ignores_zone_when_comparing_tuples() {
    // The dedupe key is (addr, socket, enumerator, object, type) —
    // not zone. A responder spelling its zone differently across replies
    // is still the same entity.
    let mut a = tuple("Mac", 42);
    let mut b = tuple("Mac", 42);
    a.zone = "Engineering".to_string();
    b.zone = "engineering".to_string();
    let mut all = Vec::new();
    merge(&mut all, &[a]);
    merge(&mut all, &[b]);
    assert_eq!(all.len(), 1);
}

#[test]
fn addresses_parse_as_net_dot_node() {
    assert_eq!(parse_addr("65280.137").unwrap(), OURS);
    assert!(parse_addr("3.42").is_ok());
    // Fail closed on anything that is not exactly two numbers in range.
    for bad in ["", "3", "3.42.1", "3.", "eth0", "65536.1", "3.256", "3.0", "-1.2"] {
        assert!(parse_addr(bad).is_err(), "{bad:?} should not parse");
    }
}

#[test]
fn targets_parse_as_an_address_or_a_name() {
    assert_eq!("65280.137".parse::<Target>().unwrap(), Target::Addr(OURS));
    assert_eq!(
        "Server:AFPServer@Engineering".parse::<Target>().unwrap(),
        Target::Name {
            object: "Server".to_string(),
            typ: "AFPServer".to_string(),
            zone: Some("Engineering".to_string()),
        }
    );
    // No zone means "wherever I am".
    assert_eq!(
        "Server:AFPServer".parse::<Target>().unwrap(),
        Target::Name {
            object: "Server".to_string(),
            typ: "AFPServer".to_string(),
            zone: None,
        }
    );
    // Anything with neither a colon nor an at-sign must be an address.
    assert!("eth0".parse::<Target>().is_err());
    assert!("".parse::<Target>().is_err());
}

#[test]
fn echoes_are_matched_by_our_own_marker() {
    // AEP has no sequence number, so the pinger plants one in the data.
    let data = echo_data(0xdead_beef, 3);
    let a = Aep { func: Echo::Reply, data: data.clone() };
    let d = datagram(Addr { net: 3, node: 42 }, 4, OURS, OUR_SOCKET, DDP_AEP, a.to_bytes());
    let p = Packet {
        frame: frame(THEIR_MAC, OUR_MAC, DDP, Vec::new()),
        body: Body::Ddp(d, DdpBody::Aep(a)),
    };
    assert_eq!(echo_match(&p, 0xdead_beef), Some((Addr { net: 3, node: 42 }, 3)));
    // Someone else's ping.
    assert_eq!(echo_match(&p, 0x1234_5678), None);

    // Our own outgoing request, seen because the NIC is promiscuous.
    let req = Aep { func: Echo::Request, data };
    let d = datagram(OURS, OUR_SOCKET, Addr { net: 3, node: 42 }, 4, DDP_AEP, req.to_bytes());
    let p = Packet {
        frame: frame(OUR_MAC, THEIR_MAC, DDP, Vec::new()),
        body: Body::Ddp(d, DdpBody::Aep(req)),
    };
    assert_eq!(echo_match(&p, 0xdead_beef), None);
}

#[test]
fn a_zone_list_request_asks_for_one_response_packet() {
    let a = zone_list_request(4660, 1);
    assert_eq!(a.func, Func::Req);
    // "These requests always ask for a single response packet".
    assert_eq!(a.bitmap, 0x01);
    assert!(!a.xo()); // at-least-once
    assert_eq!(a.user_bytes, [8, 0, 0, 1]); // GetZoneList, start index 1
    assert!(a.data.is_empty());
    assert_eq!(a.tid, 4660);

    // The index is 1-based and carried big-endian.
    assert_eq!(zone_list_request(1, 300).user_bytes, [8, 0, 0x01, 0x2c]);
}

#[test]
fn paging_continues_from_the_index_plus_the_names_returned() {
    let more = ZipAtp::Reply {
        last: false,
        zones: vec!["Engineering".into(), "Marketing".into(), "Sales".into()],
    };
    assert_eq!(next_start(1, &more), Some(4));

    let done = ZipAtp::Reply { last: true, zones: vec!["Accounts".into()] };
    assert_eq!(next_start(4, &done), None);

    // A router returns an empty, final response past the end of the list.
    let past_end = ZipAtp::Reply { last: true, zones: vec![] };
    assert_eq!(next_start(9, &past_end), None);

    // Anything that is not a reply ends the series rather than looping.
    assert_eq!(next_start(1, &ZipAtp::GetMyZone), None);
}

#[test]
fn next_start_does_not_overflow_past_u16_max() {
    let reply = ZipAtp::Reply { last: false, zones: vec!["a".into()] };
    assert_eq!(next_start(u16::MAX, &reply), None);
}

#[test]
fn an_empty_non_final_page_is_malformed_and_ends_the_series() {
    // A router past the end of the list sets `last`; `last:
    // false` with no zones is not a real page. Treating it as terminal,
    // not `Some(start)`, is what keeps this from looping forever.
    let malformed = ZipAtp::Reply { last: false, zones: vec![] };
    assert_eq!(next_start(9, &malformed), None);
}

#[test]
fn zone_reply_matches_gates_on_router_func_and_tid() {
    let router = Addr { net: 3, node: 1 };
    let other = Addr { net: 3, node: 2 };

    let resp = |tid: u16| Packet {
        frame: frame(THEIR_MAC, OUR_MAC, DDP, Vec::new()),
        body: Body::Ddp(
            datagram(router, 6, OURS, OUR_SOCKET, DDP_ATP, Vec::new()),
            DdpBody::Atp(Atp::response(tid, 0, true, false, [8, 0, 0, 1], Vec::new())),
        ),
    };
    assert!(zone_reply_matches(&resp(4660), router, 4660));
    // A stale retransmission answering a different page.
    assert!(!zone_reply_matches(&resp(4660), router, 4661));

    // Someone else's reply, seen because capture is promiscuous.
    let mut wrong_source = resp(4660);
    if let Body::Ddp(d, _) = &mut wrong_source.body {
        d.src = other;
    }
    assert!(!zone_reply_matches(&wrong_source, router, 4660));

    // Not ATP at all.
    assert!(!zone_reply_matches(&netinfo((3, 5), "Engineering", None), router, 4660));
}

#[test]
fn frames_go_out_as_phase_2_snap() {
    let f = frame(
        MacAddr::new(0x00, 0x05, 0x02, 0xaa, 0xbb, 0xcc),
        broadcast_mac(),
        DDP,
        vec![1, 2, 3],
    );
    assert!(f.snap);
    assert_eq!(f.dst, MacAddr::new(0x09, 0x00, 0x07, 0xff, 0xff, 0xff));
    let b = f.to_bytes();
    assert_eq!(&b[14..22], &[0xaa, 0xaa, 0x03, 0x08, 0x00, 0x07, 0x80, 0x9b]);
}

#[test]
fn merging_an_answer_again_changes_nothing() {
    let mut all = Vec::new();
    merge(&mut all, &[tuple("Mac", 42), tuple("Mac", 42), tuple("Printer", 43)]);
    assert_eq!(all, [tuple("Mac", 42), tuple("Printer", 43)]);
    merge(&mut all, &[tuple("Printer", 43), tuple("Mac", 42)]);
    assert_eq!(all, [tuple("Mac", 42), tuple("Printer", 43)]);
}

#[test]
fn the_latest_mapping_wins() {
    let them = Addr { net: 3, node: 1 };
    let mut amt = Amt::new();
    amt.insert(them, THEIR_MAC);
    amt.insert(them, OUR_MAC);
    assert_eq!(mac_for(&amt, them), OUR_MAC);
    assert_eq!(mac_for(&amt, Addr { net: 3, node: 2 }), broadcast_mac());
}

#[test]
fn a_name_may_leave_its_type_out() {
    assert_eq!(
        Target::parse("Server@BabCom"),
        Ok(Target::Name {
            object: "Server".to_string(),
            typ: "=".to_string(),
            zone: Some("BabCom".to_string()),
        })
    );
    // The zone is everything after the first at-sign, colons and all.
    assert_eq!(
        Target::parse("a:b@c:d@e"),
        Ok(Target::Name {
            object: "a".to_string(),
            typ: "b".to_string(),
            zone: Some("c:d@e".to_string()),
        })
    );
}
