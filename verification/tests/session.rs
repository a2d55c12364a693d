//! Transactions put back together.

use appletalk::addr::MacAddr;
use appletalk::session::{Message, Session, Transactions, MAX_OPEN};
use appletalk::wire::{Addr, Atp, Body, Ddp, DdpBody, Frame, Packet, ZipAtp, DDP, DDP_ATP};

/// A DDP/ATP packet from 65280.128:6 to 3.42:253, wrapped as a Packet
/// without going through the wire.
fn packet(atp: Atp) -> Packet {
    let ddp = Ddp {
        hops: 0,
        length: 0,
        checksum: 0,
        dst: Addr { net: 3, node: 42 },
        dst_socket: 253,
        src: Addr { net: 65280, node: 128 },
        src_socket: 6,
        typ: DDP_ATP,
        data: Vec::new(),
    };
    Packet {
        frame: Frame {
            dst: MacAddr::new(0, 0, 0, 0, 0, 0),
            src: MacAddr::new(0, 0, 0, 0, 0, 0),
            proto: DDP,
            snap: true,
            payload: Vec::new(),
        },
        body: Body::Ddp(ddp, DdpBody::Atp(atp)),
    }
}

/// So many seconds after the epoch, in milliseconds.
fn at(secs: u64) -> u64 {
    secs * 1000
}

/// A length-prefixed string, as it appears in ZIP.
fn ps(s: &str) -> Vec<u8> {
    let mut v = vec![s.len() as u8];
    v.extend(s.bytes());
    v
}

fn resp(seq: u8, eom: bool, data: &[u8]) -> Packet {
    packet(Atp::response(4660, seq, eom, false, [1, 2, 3, 4], data.to_vec()))
}

/// Like `resp`, but with caller-chosen user bytes, for tests that need to
/// tell fragments apart by which one's user bytes won.
fn resp_ub(seq: u8, eom: bool, user_bytes: [u8; 4], data: &[u8]) -> Packet {
    packet(Atp::response(4660, seq, eom, false, user_bytes, data.to_vec()))
}

#[test]
fn completes_an_in_order_multi_packet_response() {
    let mut t = Transactions::new();
    assert!(t.push(at(0), &resp(0, false, b"aaa")).is_none());
    assert!(t.push(at(1), &resp(1, false, b"bbb")).is_none());
    let done = t.push(at(2), &resp(2, true, b"ccc")).unwrap();
    assert_eq!(done.data, b"aaabbbccc");
    assert_eq!(done.key.tid, 4660);
    assert_eq!(done.user_bytes, [1, 2, 3, 4]);
    assert_eq!(done.at, at(2));
}

#[test]
fn completes_when_eom_arrives_before_an_earlier_packet() {
    let mut t = Transactions::new();
    assert!(t.push(at(0), &resp(2, true, b"ccc")).is_none());
    assert!(t.push(at(1), &resp(0, false, b"aaa")).is_none());
    let done = t.push(at(2), &resp(1, false, b"bbb")).unwrap();
    assert_eq!(done.data, b"aaabbbccc");
}

#[test]
fn duplicate_responses_are_idempotent() {
    let mut t = Transactions::new();
    assert!(t.push(at(0), &resp(0, false, b"aaa")).is_none());
    assert!(t.push(at(1), &resp(0, false, b"aaa")).is_none());
    let done = t.push(at(2), &resp(1, true, b"bbb")).unwrap();
    assert_eq!(done.data, b"aaabbb");
}

#[test]
fn a_single_packet_response_completes_immediately() {
    let mut t = Transactions::new();
    let done = t.push(at(0), &resp(0, true, b"only")).unwrap();
    assert_eq!(done.data, b"only");
}

#[test]
fn requests_and_releases_do_not_complete_transactions() {
    let mut t = Transactions::new();
    let req = packet(Atp::request(4660, 0x07, None, [0; 4], Vec::new()));
    assert!(t.push(at(0), &req).is_none());
    assert!(t.push(at(1), &packet(Atp::release(4660))).is_none());
}

#[test]
fn transactions_with_different_tids_do_not_mix() {
    let mut t = Transactions::new();
    let other = packet(Atp::response(9999, 0, true, false, [0; 4], b"x".to_vec()));
    assert!(t.push(at(0), &resp(0, false, b"aaa")).is_none());
    assert_eq!(t.push(at(1), &other).unwrap().data, b"x");
    assert_eq!(t.push(at(2), &resp(1, true, b"bbb")).unwrap().data, b"aaabbb");
}

#[test]
fn user_bytes_come_from_packet_0_in_order() {
    let mut t = Transactions::new();
    assert!(t.push(at(0), &resp_ub(0, false, [0xaa, 0, 0, 0], b"aaa")).is_none());
    assert!(t.push(at(1), &resp_ub(1, false, [0xbb, 0, 0, 0], b"bbb")).is_none());
    let done = t.push(at(2), &resp_ub(2, true, [0xcc, 0, 0, 0], b"ccc")).unwrap();
    assert_eq!(done.user_bytes, [0xaa, 0, 0, 0]);
}

#[test]
fn user_bytes_come_from_packet_0_out_of_order() {
    let mut t = Transactions::new();
    assert!(t.push(at(0), &resp_ub(2, true, [0xcc, 0, 0, 0], b"ccc")).is_none());
    assert!(t.push(at(1), &resp_ub(1, false, [0xbb, 0, 0, 0], b"bbb")).is_none());
    let done = t.push(at(2), &resp_ub(0, false, [0xaa, 0, 0, 0], b"aaa")).unwrap();
    assert_eq!(done.user_bytes, [0xaa, 0, 0, 0]);
}

#[test]
fn sequence_numbers_past_7_are_rejected_without_opening_a_transaction() {
    let mut t = Transactions::new();
    assert!(t.push(at(0), &resp(8, true, b"x")).is_none());
    assert_eq!(t.open_count(), 0);
    assert!(t.push(at(1), &resp(255, true, b"x")).is_none());
    assert_eq!(t.open_count(), 0);
}

#[test]
fn expires_transactions_that_never_complete() {
    let mut t = Transactions::new();
    assert!(t.push(at(0), &resp(0, false, b"aaa")).is_none());
    // 31s later a packet for an unrelated transaction drives the clock past
    // the 30s TRel timeout, evicting the stalled one.
    let other = packet(Atp::response(1, 0, true, false, [0; 4], b"x".to_vec()));
    assert_eq!(t.push(at(31), &other).unwrap().data, b"x");
    assert_eq!(t.open_count(), 0);

    // The stalled transaction is gone, so its EOM starts a fresh one that can
    // never complete rather than resurrecting the old data.
    assert!(t.push(at(32), &resp(1, true, b"bbb")).is_none());
}

#[test]
fn flush_discards_everything_in_flight() {
    let mut t = Transactions::new();
    assert!(t.push(at(0), &resp(0, false, b"aaa")).is_none());
    assert_eq!(t.open_count(), 1);
    t.flush();
    assert_eq!(t.open_count(), 0);
    assert!(t.push(at(1), &resp(1, true, b"bbb")).is_none());
}

#[test]
fn caps_the_number_of_open_transactions() {
    let mut t = Transactions::new();
    for tid in 0..(MAX_OPEN as u16 + 10) {
        let p = packet(Atp::response(tid, 0, false, false, [0; 4], b"x".to_vec()));
        t.push(at(0), &p);
    }
    assert!(t.open_count() <= MAX_OPEN);
}

#[test]
fn session_emits_a_message_when_a_transaction_completes() {
    let mut s = Session::new();
    assert!(s.push(at(0), &resp(0, false, b"aaa")).is_empty());
    let msgs = s.push(at(1), &resp(1, true, b"bbb"));
    match msgs.as_slice() {
        [Message::Unclassified(t)] => assert_eq!(t.data, b"aaabbb"),
        other => panic!("expected one unclassified message, got {other:?}"),
    }
}

#[test]
fn session_flush_clears_in_flight_state() {
    let mut s = Session::new();
    assert!(s.push(at(0), &resp(0, false, b"aaa")).is_empty());
    s.flush();
    assert!(s.push(at(1), &resp(1, true, b"bbb")).is_empty());
}

#[test]
fn session_classifies_a_zip_reply_from_the_zone_information_socket() {
    let mut data = ps("Engineering");
    data.extend(ps("Marketing"));
    // resp() sends from 65280.128:6 — the ZIS.
    let p = packet(Atp::response(4660, 0, true, false, [1, 0, 0, 2], data));
    let mut s = Session::new();
    match s.push(at(0), &p).as_slice() {
        [Message::Zip(ZipAtp::Reply { last, zones })] => {
            assert!(last);
            assert_eq!(zones, &["Engineering".to_string(), "Marketing".to_string()]);
        }
        other => panic!("expected a ZIP reply, got {other:?}"),
    }
}

#[test]
fn session_leaves_non_zip_sockets_unclassified() {
    let mut s = Session::new();
    // Same shape, but from a dynamically assigned socket rather than the ZIS.
    let mut p = packet(Atp::response(4660, 0, true, false, [1, 0, 0, 0], b"x".to_vec()));
    if let Body::Ddp(d, _) = &mut p.body {
        d.src_socket = 253;
    }
    match s.push(at(0), &p).as_slice() {
        [Message::Unclassified(_)] => {}
        other => panic!("expected unclassified, got {other:?}"),
    }
}

#[test]
fn a_series_completes_once_in_any_order_with_duplicates() {
    let parts: [&[u8]; 4] = [b"aa", b"b", b"", b"dddd"];
    let part = |i: usize| resp_ub(i as u8, i == 3, [i as u8 + 1, 0, 0, 0], parts[i]);
    for order in [[3, 1, 1, 3, 0, 2], [0, 0, 1, 2, 2, 3], [2, 3, 2, 1, 1, 0], [1, 0, 3, 3, 0, 2]] {
        let mut t = Transactions::new();
        for (n, &i) in order.iter().enumerate() {
            let got = t.push(at(n as u64), &part(i));
            if n + 1 < order.len() {
                assert_eq!(got, None, "{order:?} at {n}");
            } else {
                let got = got.unwrap();
                assert_eq!(got.data, b"aabdddd");
                assert_eq!(got.user_bytes, [1, 0, 0, 0]);
                assert_eq!(got.at, at(n as u64));
            }
        }
        assert_eq!(t.open_count(), 0);
    }
}

#[test]
fn transactions_that_mingle_complete_each_on_its_own() {
    let of = |tid: u16, seq: u8, eom: bool, data: &[u8]| {
        packet(Atp::response(tid, seq, eom, false, [tid as u8, seq, 0, 0], data.to_vec()))
    };
    let mut t = Transactions::new();
    assert!(t.push(at(0), &of(1, 1, true, b"B")).is_none());
    assert!(t.push(at(1), &of(2, 0, false, b"x")).is_none());
    assert!(t.push(at(2), &of(3, 0, false, b"never")).is_none());
    assert!(t.push(at(3), &packet(Atp::release(1))).is_none());
    let two = t.push(at(4), &of(2, 1, true, b"y")).unwrap();
    assert_eq!((two.key.tid, two.data, two.user_bytes), (2, b"xy".to_vec(), [2, 0, 0, 0]));
    let one = t.push(at(5), &of(1, 0, false, b"A")).unwrap();
    assert_eq!((one.key.tid, one.data, one.user_bytes), (1, b"AB".to_vec(), [1, 0, 0, 0]));
    assert_eq!(t.open_count(), 1);
}
