//! The passive frontend.

use appletalk::addr::MacAddr;
use appletalk::cli::{Output, Proto};
use appletalk::node::{broadcast_mac, datagram, frame};
use appletalk::text::{hexdump, print_packet, timestamp, Monitor};
use appletalk::wire::{decode, Addr, Aep, Atp, Echo, Encode, Packet, Zip, DDP, DDP_AEP, DDP_ATP, DDP_ZIP};

const MAC: MacAddr = MacAddr(0x00, 0x05, 0x02, 0xaa, 0xbb, 0xcc);

fn packet(src: (Addr, u8), dst: (Addr, u8), typ: u8, data: Vec<u8>) -> Packet {
    let d = datagram(src.0, src.1, dst.0, dst.1, typ, data);
    decode(&frame(MAC, broadcast_mac(), DDP, d.to_bytes()).to_bytes()).unwrap()
}

fn net_info() -> Packet {
    let z = Zip::GetNetInfo { zone: String::new() };
    packet((Addr { net: 6800, node: 99 }, 6), (Addr { net: 0, node: 255 }, 6), DDP_ZIP, z.to_bytes())
}

/// 12:04:22.115 on some day.
const AT: u64 = (12 * 3600 + 4 * 60 + 22) * 1000 + 115 + 86_400_000 * 365;

#[test]
fn the_clock_is_wall_time_without_the_day() {
    assert_eq!(timestamp(0), "00:00:00.000");
    assert_eq!(timestamp(AT), "12:04:22.115");
    assert_eq!(timestamp(86_399_999), "23:59:59.999");
}

#[test]
fn a_packet_is_an_indented_block() {
    let mut s = String::new();
    print_packet(&mut s, AT, &net_info(), &Output::default());
    let lines: Vec<&str> = s.lines().collect();
    assert_eq!(
        lines[0],
        "12:04:22.115 00:05:02:aa:bb:cc > 09:00:07:ff:ff:ff  DDP (0x809b)  phase 2  20 bytes"
    );
    assert_eq!(lines[1], "  6800.99:6 > 0.255:6  type 6 (ZIP) hops 0 len 20 cksum none");
    assert_eq!(lines[2].trim_end(), "    get-net-info zone");
    assert_eq!(lines.len(), 3);
}

#[test]
fn the_outer_lines_can_be_hidden() {
    let mut s = String::new();
    let o = Output { no_link: true, no_net: true, ..Output::default() };
    print_packet(&mut s, AT, &net_info(), &o);
    assert_eq!(s.trim_end(), "    get-net-info zone");
}

#[test]
fn a_dump_has_sixteen_bytes_to_a_line() {
    let mut s = String::new();
    let b: Vec<u8> = (0x3a..0x4b).collect();
    hexdump(&mut s, &b);
    assert_eq!(
        s,
        "  0000  3a 3b 3c 3d 3e 3f 40 41 42 43 44 45 46 47 48 49 |:;<=>?@ABCDEFGHI|\n  \
           0010  4a                                              |J|\n"
    );
    let mut s = String::new();
    hexdump(&mut s, &[0x00, 0x7f, 0xff]);
    assert!(s.ends_with("|...|\n"), "{s}");
    let mut s = String::new();
    hexdump(&mut s, &[]);
    assert_eq!(s, "");
}

#[test]
fn a_dump_follows_the_protocol_line() {
    let a = Aep { func: Echo::Request, data: b"hello".to_vec() };
    let p = packet((Addr { net: 3, node: 1 }, 128), (Addr { net: 3, node: 2 }, 4), DDP_AEP, a.to_bytes());
    let o = Output { hex: true, no_link: true, no_net: true, ..Output::default() };
    let mut s = String::new();
    print_packet(&mut s, 0, &p, &o);
    assert!(s.ends_with("  0000  68 65 6c 6c 6f                                  |hello|\n"), "{s}");
    assert_eq!(s.lines().count(), 2);
}

fn response(seq: u8, eom: bool, data: &[u8]) -> Packet {
    let a = Atp::response(4660, seq, eom, false, [1, 2, 3, 4], data.to_vec());
    packet((Addr { net: 3, node: 1 }, 253), (Addr { net: 3, node: 2 }, 254), DDP_ATP, a.to_bytes())
}

#[test]
fn hidden_packets_still_reassemble() {
    let hide = Output { hide: vec![Proto::Atp], ..Output::default() };
    let show = Output::default();
    let mut m = Monitor::new();
    assert_eq!(m.packet(0, &response(0, false, b"aaa"), &hide), "");
    let s = m.packet(1, &response(1, true, b"bbb"), &show);
    assert!(s.lines().last().unwrap().starts_with("  >> "), "{s}");

    // A completed message is hidden with the packet that completed it.
    let mut m = Monitor::new();
    m.packet(0, &response(0, false, b"aaa"), &show);
    assert_eq!(m.packet(1, &response(1, true, b"bbb"), &hide), "");
}

#[test]
fn a_gap_forgets_what_was_in_flight() {
    let show = Output::default();
    let mut m = Monitor::new();
    m.packet(0, &response(0, false, b"aaa"), &show);
    assert_eq!(m.dropped(17), "dropped 17 frames (queue full)");
    let s = m.packet(1, &response(1, true, b"bbb"), &show);
    assert!(!s.contains(">>"), "{s}");
}
