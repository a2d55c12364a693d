//! Zone information packets.

use appletalk::addr::MacAddr;
use appletalk::wire::{zone_multicast, Encode, Zip};

/// A length-prefixed string, as it appears in NBP and ZIP.
fn ps(s: &str) -> Vec<u8> {
    let mut v = vec![s.len() as u8];
    v.extend(s.bytes());
    v
}

#[test]
fn zip_zip_query() {
    let z = Zip::parse(&[1, 2, 0, 3, 0, 5]).unwrap();
    assert_eq!(z, Zip::Query { nets: vec![3, 5] });
    assert_eq!(z.to_string(), "query nets 3, 5");
}

#[test]
fn zip_zip_reply_pairs_nets_with_zones() {
    let mut p = vec![2, 2];
    p.extend([0, 3]);
    p.extend(ps("Engineering"));
    p.extend([0, 5]);
    p.extend(ps("Marketing"));
    let z = Zip::parse(&p).unwrap();
    assert_eq!(z.to_string(), "reply 3=Engineering, 5=Marketing");
}

#[test]
fn zip_zip_get_net_info_round_trip() {
    let mut req = vec![5, 0, 0, 0, 0, 0];
    req.extend(ps("Engineering"));
    assert_eq!(
        Zip::parse(&req).unwrap().to_string(),
        "get-net-info zone Engineering"
    );

    // Reply: flags "only one zone", cable range 3-5, plus the multicast
    // address a node in that zone should listen on.
    let mut reply = vec![6, 0x20, 0, 3, 0, 5];
    reply.extend(ps("Engineering"));
    reply.extend([6, 0x09, 0x00, 0x07, 0x00, 0x00, 0x01]);
    let z = Zip::parse(&reply).unwrap();
    assert_eq!(
        z.to_string(),
        "net-info-reply nets 3-5 zone Engineering mcast 09:00:07:00:00:01 one-zone"
    );
}

#[test]
fn zip_zip_net_info_reply_carries_default_zone_when_invalid() {
    let mut reply = vec![6, 0x80, 0, 3, 0, 5]; // 0x80 = requested zone invalid
    reply.extend(ps("Nonexistent"));
    reply.extend([6, 0x09, 0x00, 0x07, 0x00, 0x00, 0x01]);
    reply.extend(ps("Engineering"));
    let z = Zip::parse(&reply).unwrap();
    assert!(z.to_string().ends_with("zone-invalid default Engineering"), "{z:?}");
}

#[test]
fn zip_zip_rejects_unknown_command_and_short() {
    assert!(Zip::parse(&[99, 0]).is_none());
    assert!(Zip::parse(&[1]).is_none()); // no count byte
    assert!(Zip::parse(&[1, 4, 0, 3]).is_none()); // count exceeds body
}

#[test]
fn zip_encodes_query_and_recomputes_count() {
    let mut z = Zip::parse(&[1, 2, 0, 3, 0, 5]).unwrap();
    assert_eq!(z.to_bytes(), vec![1, 2, 0, 3, 0, 5]);
    if let Zip::Query { nets } = &mut z {
        nets.push(9);
    }
    assert_eq!(z.to_bytes(), vec![1, 3, 0, 3, 0, 5, 0, 9]);
}

#[test]
fn zip_round_trips_reply_and_net_info() {

    let mut reply = vec![2, 2];
    reply.extend([0, 3]);
    reply.extend(ps("Engineering"));
    reply.extend([0, 5]);
    reply.extend(ps("Marketing"));
    let z = Zip::parse(&reply).unwrap();
    assert_eq!(Zip::parse(&z.to_bytes()), Some(z));

    let mut info = vec![6, 0x20, 0, 3, 0, 5];
    info.extend(ps("Engineering"));
    info.extend([6, 0x09, 0x00, 0x07, 0x00, 0x00, 0x01]);
    let z = Zip::parse(&info).unwrap();
    assert_eq!(Zip::parse(&z.to_bytes()), Some(z));
}

#[test]
fn zip_round_trips_net_info_with_default_zone() {
    let mut info = vec![6, 0x80, 0, 3, 0, 5];
    info.extend(ps("Nonexistent"));
    info.extend([6, 0x09, 0x00, 0x07, 0x00, 0x00, 0x01]);
    info.extend(ps("Engineering"));
    let z = Zip::parse(&info).unwrap();
    assert_eq!(Zip::parse(&z.to_bytes()), Some(z));
}

#[test]
fn every_spelling_of_a_zone_has_one_multicast_address() {
    let m = zone_multicast("68k Mac Club");
    assert_eq!(m, MacAddr(0x09, 0x00, 0x07, 0x00, 0x00, 0xf1));
    assert_eq!(zone_multicast("68K MAC CLUB"), m);
    assert_eq!(zone_multicast("BabCom"), MacAddr(0x09, 0x00, 0x07, 0x00, 0x00, 0x11));
}

#[test]
fn a_default_zone_that_is_cut_short_is_not_decoded_in_part() {
    let mut p = vec![6, 0x80, 0, 3, 0, 5, 1, b'N', 6, 9, 0, 7, 0, 0, 1, 5, b'E'];
    assert_eq!(Zip::parse(&p), None);
    // Nor is one that is announced and missing altogether.
    assert_eq!(Zip::parse(&p[..15]), None);
    p.extend(b"ther");
    match Zip::parse(&p) {
        Some(Zip::NetInfoReply { default_zone, .. }) => assert_eq!(default_zone, Some("Ether".to_string())),
        other => panic!("expected a reply, got {other:?}"),
    }
}
