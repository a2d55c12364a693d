//! Echo packets.

use appletalk::wire::{Aep, Echo, Encode};

#[test]
fn aep_aep_request_and_reply() {
    let req = Aep::parse(&[1, 0xde, 0xad, 0xbe, 0xef]).unwrap();
    assert_eq!(req.func, Echo::Request);
    assert_eq!(req.data, [0xde, 0xad, 0xbe, 0xef]);
    assert_eq!(req.to_string(), "request 4 bytes");

    let reply = Aep::parse(&[2]).unwrap();
    assert_eq!(reply.func, Echo::Reply);
    assert!(reply.data.is_empty());
    assert_eq!(reply.to_string(), "reply 0 bytes");
}

#[test]
fn aep_aep_rejects_unknown_func_and_empty() {
    assert!(Aep::parse(&[0]).is_none());
    assert!(Aep::parse(&[]).is_none());
}

#[test]
fn aep_encodes_and_round_trips() {
    let a = Aep { func: Echo::Request, data: vec![0xde, 0xad] };
    assert_eq!(a.to_bytes(), vec![1, 0xde, 0xad]);
    assert_eq!(Aep::parse(&a.to_bytes()), Some(a));

    let r = Aep { func: Echo::Reply, data: Vec::new() };
    assert_eq!(r.to_bytes(), vec![2]);
    assert_eq!(Aep::parse(&r.to_bytes()), Some(r));
}
