//! What the commands say.

use appletalk::addr::MacAddr;
use appletalk::node::BadAddr;
use appletalk::report::{bad_address, claim_lines, nodes, nodes_lines, ping_target, zones};
use appletalk::runtime::{ClaimError, Node};
use appletalk::wire::{Addr, NbpTuple};

const A: Addr = Addr { net: 6800, node: 53 };
const ROUTER: Addr = Addr { net: 6800, node: 1 };

fn tuple(object: &str, node: u8) -> NbpTuple {
    NbpTuple {
        addr: Addr { net: 6800, node },
        socket: 249,
        enumerator: 0,
        object: object.to_string(),
        typ: "AFPServer".to_string(),
        zone: "*".to_string(),
    }
}

#[test]
fn text_that_is_no_address_is_quoted() {
    assert_eq!(bad_address("\"x\""), "bad address \"x\"");
    assert_eq!(BadAddr { text: "a\"b\n".to_string() }.to_string(), "bad address \"a\\\"b\\n\"");
}

#[test]
fn each_failure_to_claim_says_why() {
    assert_eq!(ClaimError::Reserved(254).to_string(), "node 254 is reserved and cannot be claimed");
    assert_eq!(ClaimError::Taken(A).to_string(), "6800.53 is taken");
    assert_eq!(ClaimError::NoneFree.to_string(), "could not claim an address");
    assert_eq!(ClaimError::NoneFreeInRange.to_string(), "could not claim an address in range");
    assert_eq!(ClaimError::Unsent.to_string(), "the probe could not be sent");
}

#[test]
fn a_claim_says_where_we_are() {
    assert_eq!(claim_lines(A, "\"x\"", None, None), ["claimed 6800.53, no router on this network"]);
    assert_eq!(
        claim_lines(A, "\"68k Mac Club\"", Some(ROUTER), Some((3, 5))),
        [
            "6800.53 is outside this cable's range 3-5; keeping it as requested",
            "claimed 6800.53, zone \"68k Mac Club\", router 6800.1",
        ]
    );
    let mut n = Node::new(MacAddr(2, 0, 0, 0, 0, 1));
    n.addr = A;
    n.router = Some(ROUTER);
    n.zone = Some("68k Mac Club".to_string());
    assert_eq!(n.claim_notes(None), ["claimed 6800.53, zone \"68k Mac Club\", router 6800.1"]);
}

#[test]
fn entities_are_listed_and_their_absence_is_said() {
    let p = nodes(&vec![tuple("Mini", 150)], "BabCom");
    assert_eq!(p.out, ["Mini:AFPServer@* at 6800.150:249"]);
    assert!(p.err.is_empty());
    let p = nodes(&Vec::new(), "BabCom");
    assert!(p.out.is_empty());
    assert_eq!(p.err, ["no entities answered in zone \"BabCom\""]);
    assert_eq!(nodes_lines(&Vec::new(), "Z").err, ["no entities answered in zone Z"]);
}

#[test]
fn the_first_to_answer_is_pinged() {
    let one = vec![tuple("Mini", 150)];
    assert_eq!(ping_target(&one, "Mini", "=", "*"), Ok((Addr { net: 6800, node: 150 }, None)));
    let two = vec![tuple("Mini", 150), tuple("Mini", 151)];
    assert_eq!(
        ping_target(&two, "Mini", "=", "*"),
        Ok((
            Addr { net: 6800, node: 150 },
            Some("2 answered; pinging Mini:AFPServer@* at 6800.150:249".to_string())
        ))
    );
    assert_eq!(
        ping_target(&Vec::new(), "Mini", "AFPServer", "BabCom"),
        Err("no answer for Mini:AFPServer@BabCom".to_string())
    );
}

#[test]
fn zones_are_listed_with_ours_marked() {
    let ours = "68k Mac Club".to_string();
    let p = zones(Some(ROUTER), &ours, &vec!["68k Mac Club".to_string(), "BabCom".to_string()]);
    assert_eq!(p.out, ["68k Mac Club *", "BabCom"]);
    assert!(p.err.is_empty());
    assert_eq!(zones(Some(ROUTER), &ours, &Vec::new()).err, ["router 6800.1 answered with an empty zone list"]);
    let p = zones(None, &ours, &Vec::new());
    assert_eq!((p.out.len(), p.err), (0, vec!["no router: this network has no zones".to_string()]));
}
