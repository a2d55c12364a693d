//! Choosing an interface, the event queue, and counting what was lost.

use std::sync::mpsc::sync_channel;

use appletalk::addr::{Ipv4Addr, MacAddr};
use appletalk::capture::{choose_interface, Backlog, Event, Interface, IpAddr, QUEUE};
use appletalk::wire::Llap;

/// The LToUDP reader posts into the same queue as the capture thread, so
/// one loop can serve both links without a select.
#[test]
fn a_second_producer_shares_the_queue() {
    let (tx, rx) = sync_channel(QUEUE);
    let second = tx.clone();
    let llap = Llap::control(42, 42, 0x81);
    second.try_send(Event::Llap { port: 0, llap: Llap::control(42, 42, 0x81) }).unwrap();
    match rx.recv().unwrap() {
        Event::Llap { port: 0, llap: got } => assert_eq!(got, llap),
        other => panic!("wrong event: {other:?}"),
    }
}

fn nic(name: &str, up: bool, loopback: bool, mac: Option<MacAddr>) -> Interface {
    Interface { name: name.to_string(), up, loopback, mac, ips: Vec::new() }
}

#[test]
fn the_first_sensible_interface_is_taken_unless_one_is_named() {
    let mac = Some(MacAddr(2, 0, 0, 0, 0, 1));
    let all = vec![
        nic("lo", true, true, mac),
        nic("down0", false, false, mac),
        nic("tun0", true, false, None),
        nic("eth0", true, false, mac),
        nic("eth1", true, false, mac),
    ];
    assert_eq!(choose_interface(&all, None), Some(3));
    assert_eq!(choose_interface(&all, Some("eth1")), Some(4));
    // A named one need not be up, nor have a hardware address.
    assert_eq!(choose_interface(&all, Some("tun0")), Some(2));
    assert_eq!(choose_interface(&all, Some("eth9")), None);
    assert_eq!(choose_interface(&all[..3].iter().map(|i| nic(&i.name, i.up, i.loopback, i.mac)).collect(), None), None);
}

#[test]
fn the_first_ipv4_address_is_the_one_to_join_on() {
    let mut i = nic("eth0", true, false, None);
    assert_eq!(i.ip(), None);
    i.ips = vec![IpAddr::V6, IpAddr::V4(Ipv4Addr(192, 0, 2, 7)), IpAddr::V4(Ipv4Addr(192, 0, 2, 8))];
    assert_eq!(i.ip(), Some(Ipv4Addr(192, 0, 2, 7)));
}

#[test]
fn losses_are_counted_until_they_are_reported() {
    let mut b = Backlog::new();
    assert_eq!(b.due(), None);
    b.lost();
    b.lost();
    assert_eq!(b.due(), Some(2));
    b.reported();
    assert_eq!(b.due(), None);
    b.dropped = u64::MAX;
    b.lost();
    assert_eq!(b.due(), Some(u64::MAX));
}
