//! The routing and zone tables.

use appletalk::router::table::{State, Tables, VALIDITY};
use appletalk::router::Target;
use appletalk::wire::{Addr, Ipv4Addr, NetworkTuple};

fn t(range: (u16,u16), ext: bool, d: u8) -> NetworkTuple { NetworkTuple { range, extended: ext, distance: d } }
fn r1() -> Addr { Addr { net: 6800, node: 1 } }
fn peer() -> Target { Target::Peer(Ipv4Addr::new(192, 0, 2, 7)) }

#[test]
fn ports_are_direct_and_exportable_once_zoned() {
    let now = 1_000_000u64;
    let mut tb = Tables::new();
    tb.add_port(0, (6800, 6800), true, vec!["A".into()], now);
    let b = tb.best(6800).unwrap();
    assert_eq!((b.distance, b.target), (0, Target::Port(0)));
    assert_eq!(tb.export(), vec![t((6800, 6800), true, 0)]);
    assert!(tb.tuples_for(0).is_empty());          // split horizon: not beaconed back onto itself
    assert_eq!(tb.tuples_for(1), vec![t((6800, 6800), true, 0)]);
}

#[test]
fn learns_prefers_shorter_and_keeps_incumbent_on_tie() {
    let now = 1_000_000u64;
    let mut tb = Tables::new();
    tb.add_port(0, (1, 1), false, vec!["A".into()], now);
    let ch = tb.learn(&t((5, 5), false, 2), Target::Port(0), Addr { net: 1, node: 9 }, now);
    assert_eq!(ch.len(), 1);
    assert!(ch[0].old.is_none());
    assert_eq!(tb.best(5).unwrap().distance, 3);
    // Same distance from another router: incumbent stays.
    let ch = tb.learn(&t((5, 5), false, 2), Target::Port(0), Addr { net: 1, node: 10 }, now);
    assert!(ch.is_empty());
    assert_eq!(tb.best(5).unwrap().next.node, 9);
    // Shorter from the other: it wins.
    let ch = tb.learn(&t((5, 5), false, 1), Target::Port(0), Addr { net: 1, node: 10 }, now);
    assert_eq!(ch[0].new.as_ref().unwrap().next.node, 10);
    assert_eq!(tb.best(5).unwrap().distance, 2);
}

#[test]
fn overlapping_ranges_are_ignored_and_31_marks_bad() {
    let now = 1_000_000u64;
    let mut tb = Tables::new();
    tb.add_port(0, (1, 1), false, vec![], now);
    tb.learn(&t((10, 12), true, 1), Target::Port(0), r1(), now);
    assert!(tb.learn(&t((11, 11), false, 0), Target::Port(0), r1(), now).is_empty());
    assert_eq!(tb.best(11).unwrap().range, (10, 12));
    let ch = tb.learn(&t((10, 12), true, 31), Target::Port(0), r1(), now);
    assert_eq!(ch.len(), 1);
    assert!(ch[0].new.is_none());
    assert!(tb.best(10).is_none());
    assert_eq!(tb.tuples_for(1), vec![t((1, 1), false, 0), t((10, 12), true, 31)]); // notify neighbour
}

#[test]
fn aging_walks_the_states_and_peer_routes_do_not_age() {
    let now = 1_000_000u64;
    let mut tb = Tables::new();
    tb.add_port(0, (1, 1), false, vec![], now);
    tb.learn(&t((5, 5), false, 0), Target::Port(0), r1(), now);
    tb.learn(&t((7, 7), false, 0), peer(), Addr { net: 0, node: 0 }, now);
    assert!(tb.age(now + VALIDITY).is_empty());                  // suspect, still best
    assert_eq!(tb.best(5).unwrap().state, State::Suspect);
    let ch = tb.age(now + VALIDITY * 2);                          // bad: no longer best
    assert_eq!(ch.len(), 1);
    assert!(tb.best(5).is_none());
    tb.age(now + VALIDITY * 3);
    assert!(tb.age(now + VALIDITY * 4).is_empty());               // deleted quietly (already not best)
    assert!(tb.routes().iter().all(|r| r.range != (5, 5)));
    assert_eq!(tb.best(7).unwrap().state, State::Good);
    // A refresh brings a suspect entry back to good.
    tb.learn(&t((9, 9), false, 0), Target::Port(0), r1(), now);
    tb.age(now + VALIDITY);
    tb.learn(&t((9, 9), false, 0), Target::Port(0), r1(), now + VALIDITY);
    assert_eq!(tb.best(9).unwrap().state, State::Good);
}

#[test]
fn remove_target_and_set_distance_report_best_changes() {
    let now = 1_000_000u64;
    let mut tb = Tables::new();
    tb.learn(&t((5, 5), false, 0), peer(), Addr { net: 0, node: 0 }, now);
    let ch = tb.set_distance(peer(), 5, 4, now);
    assert_eq!((ch[0].old.as_ref().unwrap().distance, ch[0].new.as_ref().unwrap().distance), (1, 4));
    let ch = tb.remove_target(peer());
    assert!(ch[0].new.is_none());
    assert!(tb.zones(5).is_none());
}

#[test]
fn zone_lists_gate_export_and_answer_lookups() {
    let now = 1_000_000u64;
    let mut tb = Tables::new();
    tb.add_port(0, (1, 1), false, vec!["Local".into()], now);
    tb.learn(&t((5, 6), true, 0), Target::Port(0), r1(), now);
    assert_eq!(tb.export().len(), 1);                          // 5-6 has no zones yet
    assert_eq!(tb.zoneless().len(), 1);
    let ch = tb.add_zones(5, &vec!["Eng".into()], Some(2));
    assert!(ch.is_empty());                                    // incomplete: 1 of 2
    let ch = tb.add_zones(5, &vec!["Sales".into(), "Eng".into()], Some(2));
    assert_eq!(ch.len(), 1);                                   // duplicates filtered, now complete
    assert_eq!(tb.zones(5).unwrap().names, ["Eng", "Sales"]);
    assert_eq!(tb.export().len(), 2);
    assert_eq!(tb.nets_in_zone("eng"), vec![(5, Target::Port(0))]);
    assert_eq!(tb.all_zones(), ["Local", "Eng", "Sales"]);
    assert!(tb.zoneless().is_empty());
}

#[test]
fn dump_aligns_its_columns() {
    let now = 1_000_000u64;
    let mut tb = Tables::new();
    tb.add_port(0, (1, 1), false, vec!["Local".into()], now);
    tb.learn(&t((5, 6), true, 0), Target::Port(0), r1(), now);
    tb.add_zones(5, &vec!["Eng".into()], None);
    let d = tb.dump();
    let lines: Vec<&str> = d.lines().collect();
    assert_eq!(lines[0], "network   dist  via     next    state  zones");
    assert_eq!(lines[1], "*1-1 (n)  0     port 0  -       good   Local");
    assert_eq!(lines[2], "*5-6      1     port 0  6800.1  good   Eng");
}
