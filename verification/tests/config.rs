//! Whether a router can be run with what it is told.

use appletalk::addr::{Ipv4Addr, SocketAddrV4};
use appletalk::config::{import_line, import_peers, Config, EtherPort, LtoudpPort, On, Problem, TashtalkPort};
use appletalk::peer_list::peer_lines;

fn zones(names: &[&str]) -> Vec<String> {
    names.iter().map(|z| z.to_string()).collect()
}

fn config() -> Config {
    Config {
        name: "appletalk".to_string(),
        public_ip: None,
        listen: SocketAddrV4 { ip: Ipv4Addr(0, 0, 0, 0), port: 387 },
        open_peering: true,
        peers: Vec::new(),
        ethertalk: vec![EtherPort { interface: "eth0".to_string(), net: (6800, 6800), zones: zones(&["68k Mac Club"]) }],
        ltoudp: vec![LtoudpPort { interface: None, net: 6801, zones: zones(&["Emulators"]) }],
        tashtalk: vec![TashtalkPort { device: "/dev/ttyAMA0".to_string(), net: 6802, zones: zones(&["LocalTalk"]) }],
    }
}

#[test]
fn three_ports_apart_can_be_run_with() {
    let c = config();
    assert_eq!(c.problem(), None);
    let plan = c.plan();
    assert_eq!(plan.len(), 3);
    assert_eq!(plan[0].on, On::Nic("eth0".to_string()));
    assert_eq!((plan[1].net, plan[2].net), ((6801, 6801), (6802, 6802)));
}

#[test]
fn at_least_one_port_is_required() {
    let mut c = config();
    c.ethertalk.clear();
    c.ltoudp.clear();
    c.tashtalk.clear();
    assert_eq!(c.problem(), Some(Problem::NoPorts));
}

#[test]
fn every_port_needs_a_zone_of_1_to_32_bytes() {
    let mut c = config();
    c.ltoudp[0].zones.clear();
    assert_eq!(c.problem(), Some(Problem::NoZones(1)));
    c.ltoudp[0].zones = zones(&["x".repeat(32).as_str()]);
    assert_eq!(c.problem(), None);
    c.ltoudp[0].zones = zones(&["x".repeat(33).as_str()]);
    assert_eq!(c.problem(), Some(Problem::BadZone(1)));
    c.ltoudp[0].zones = zones(&["ok", ""]);
    assert_eq!(c.problem(), Some(Problem::BadZone(1)));
}

#[test]
fn ports_share_no_interface_and_no_network() {
    let mut c = config();
    c.ethertalk.push(EtherPort { interface: "eth0".to_string(), net: (1, 2), zones: zones(&["A"]) });
    assert_eq!(c.problem(), Some(Problem::Shared(0, 1)));
    c.ethertalk[1].interface = "eth1".to_string();
    assert_eq!(c.problem(), None);
    c.ethertalk[1].net = (6790, 6801);
    assert_eq!(c.problem(), Some(Problem::Overlap(0, 1)));
    c.ethertalk[1].net = (6801, 6801);
    assert_eq!(c.problem(), Some(Problem::Overlap(1, 2)));
    c.ethertalk.pop();
    c.ltoudp.push(LtoudpPort { interface: None, net: 9, zones: zones(&["B"]) });
    assert_eq!(c.problem(), Some(Problem::Shared(1, 2)));
    c.ltoudp[1].interface = Some(Ipv4Addr(192, 168, 1, 5));
    assert_eq!(c.problem(), None);
}

#[test]
fn imported_peers_are_appended_once_whatever_their_case() {
    let mut peers = zones(&["router.example.net", "192.0.2.7"]);
    let list = "Router.Example.NET\npeer.example.org\nPEER.example.org\n192.0.2.8\n";
    assert_eq!(import_peers(&mut peers, list), Ok((2, 2)));
    assert_eq!(peers, ["router.example.net", "192.0.2.7", "peer.example.org", "192.0.2.8"]);
    // Again, and nothing is new.
    assert_eq!(import_peers(&mut peers, list), Ok((0, 4)));
    assert_eq!(peers.len(), 4);
    assert_eq!(import_line(2, 1), "added 2, 1 already present");
}

#[test]
fn blank_lines_and_comments_of_a_peer_list_are_skipped() {
    let mut peers = zones(&["192.0.2.7", "gate.example.net"]);
    let list = "# GlobalTalk\n\nGATE.example.net\nrouter.example.net\n";
    assert_eq!(import_peers(&mut peers, list), Ok((1, 1)));
    assert_eq!(peers, ["192.0.2.7", "gate.example.net", "router.example.net"]);
    assert_eq!(peer_lines("\t# x\r\n  host-1  \r\n\r\n"), Ok(zones(&["host-1"])));
    assert_eq!(peer_lines(""), Ok(Vec::new()));
}

#[test]
fn every_bad_line_is_reported_and_nothing_is_merged() {
    let mut peers = zones(&["192.0.2.7"]);
    let list = "ok.example\n-bad\n# fine\n256.1.1.1\n192.0.2.8\na..b\nhost.\ntwo words\n1.2.3\n01.2.3.4\nbad_name";
    assert_eq!(import_peers(&mut peers, list), Err(vec![2, 4, 6, 7, 8, 9, 10, 11]));
    assert_eq!(peers, ["192.0.2.7"]);
    let label = "x".repeat(63);
    assert!(peer_lines(&label).is_ok());
    assert_eq!(peer_lines(&format!("{label}x")), Err(vec![1]));
    let long = format!("{label}.{label}.{label}.{}", "x".repeat(61));
    assert!(peer_lines(&long).is_ok());
    assert_eq!(peer_lines(&format!("{long}x")), Err(vec![1]));
}
