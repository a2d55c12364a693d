//! What the flags show and hide.

use appletalk::addr::MacAddr;
use appletalk::cli::{zone_line, Cli, Command, Link, Output, Proto};
use appletalk::node::{BadAddr, Want};
use appletalk::wire::{Aarp, Addr, Body, Ddp, DdpBody, Frame, Packet, DDP};

fn packet(body: Body) -> Packet {
    let mac = MacAddr::zero();
    let frame = Frame { dst: mac, src: mac, proto: DDP, snap: true, payload: Vec::new() };
    Packet { frame, body }
}

/// A DDP datagram of the given type, body undecoded — which is the point:
/// protocol identity comes from the type byte, not from having a parser.
fn ddp(typ: u8) -> Packet {
    let addr = Addr { net: 0, node: 0 };
    let d = Ddp {
        hops: 0,
        length: 0,
        checksum: 0,
        dst: addr,
        dst_socket: 0,
        src: addr,
        src_socket: 0,
        typ,
        data: Vec::new(),
    };
    packet(Body::Ddp(d, DdpBody::Unknown))
}

#[test]
fn protocol_identity_comes_from_the_ddp_type() {
    let cases = [
        (1, Proto::Rtmp), // RTMP-data
        (2, Proto::Nbp),
        (3, Proto::Atp),
        (4, Proto::Aep),
        (5, Proto::Rtmp), // RTMP-req
        (6, Proto::Zip),
        (7, Proto::Adsp), // no parser yet, still identifiable
        (11, Proto::Other),
    ];
    for (typ, want) in cases {
        assert_eq!(Proto::of(&ddp(typ)), want, "DDP type {typ}");
    }

    let aarp = Aarp {
        op: 1,
        src_hw: MacAddr::zero(),
        src: Addr { net: 0, node: 0 },
        dst_hw: MacAddr::zero(),
        dst: Addr { net: 0, node: 0 },
    };
    assert_eq!(Proto::of(&packet(Body::Aarp(aarp))), Proto::Aarp);
    assert_eq!(Proto::of(&packet(Body::Unknown)), Proto::Other);
}

#[test]
fn no_filters_shows_everything() {
    let out = Output::default();
    assert!(out.shows(&ddp(3)));
    assert!(out.shows(&packet(Body::Unknown)));
}

#[test]
fn only_shows_just_the_listed_protocols() {
    let out = Output { only: vec![Proto::Atp], ..Output::default() };
    assert!(out.shows(&ddp(3)));
    assert!(!out.shows(&ddp(2)));
    assert!(!out.shows(&packet(Body::Unknown)));
}

#[test]
fn hide_drops_just_the_listed_protocols() {
    let out = Output { hide: vec![Proto::Rtmp, Proto::Adsp], ..Output::default() };
    assert!(!out.shows(&ddp(1)));
    assert!(!out.shows(&ddp(5)));
    assert!(!out.shows(&ddp(7)));
    assert!(out.shows(&ddp(3)));
}

fn cli(output: Output, command: Option<Command>) -> Cli {
    Cli { interface: None, node: None, net: None, output, command }
}

#[test]
fn flags_before_a_command_name_are_ambiguous() {
    let hex = || Output { hex: true, ..Output::default() };
    // On their own they mean `monitor`.
    assert!(!cli(hex(), None).conflicting_output());
    assert!(cli(hex(), None).output().hex);
    assert!(cli(hex(), Some(Command::Monitor { output: Output::default() })).conflicting_output());
    assert!(cli(hex(), Some(Command::Zones)).conflicting_output());
    // After the command they are its own.
    let c = cli(Output::default(), Some(Command::Monitor { output: hex() }));
    assert!(!c.conflicting_output());
    assert!(c.output().hex);
    assert!(!cli(Output::default(), Some(Command::Bridge { link: Link::Udp })).conflicting_output());
}

#[test]
fn the_flags_say_how_much_of_the_address_is_pinned() {
    let mut c = cli(Output::default(), Some(Command::Zones));
    assert_eq!(c.want(), Ok(Want::Discover));
    c.net = Some(6800);
    assert_eq!(c.want(), Ok(Want::Net(6800)));
    c.net = None;
    c.node = Some("6800.99".to_string());
    assert_eq!(c.want(), Ok(Want::Addr(Addr { net: 6800, node: 99 })));
    c.node = Some("eth0".to_string());
    assert_eq!(c.want(), Err(BadAddr { text: "eth0".to_string() }));
}

#[test]
fn our_own_zone_is_marked() {
    let ours = "68k Mac Club".to_string();
    assert_eq!(zone_line(&"68k Mac Club".to_string(), &ours), "68k Mac Club *");
    assert_eq!(zone_line(&"BabCom".to_string(), &ours), "BabCom");
}
