//! Name binding packets.

use appletalk::wire::{Addr, Encode, Nbp, NbpFunc, NbpTuple};

/// A length-prefixed string, as it appears in NBP and ZIP.
fn ps(s: &str) -> Vec<u8> {
    let mut v = vec![s.len() as u8];
    v.extend(s.bytes());
    v
}

#[test]
fn nbp_nbp_lookup_one_tuple() {
    let mut p = vec![(2 << 4) | 1, 42]; // LkUp, 1 tuple, id 42
    p.extend([0xff, 0x00, 128, 253, 0]); // 65280.128 socket 253
    p.extend(ps("="));
    p.extend(ps("AFPServer"));
    p.extend(ps("*"));
    let n = Nbp::parse(&p).unwrap();
    assert_eq!((n.func, n.id, n.tuples.len()), (NbpFunc::LkUp, 42, 1));
    assert_eq!(n.to_string(), "LkUp id 42  =:AFPServer@* at 65280.128:253");
}

#[test]
fn nbp_nbp_reply_two_tuples_with_enumerator() {
    let mut p = vec![(3 << 4) | 2, 7];
    for (node, enumerator, name) in [(128u8, 0u8, "Mac IIci"), (129, 3, "SE/30")] {
        p.extend([0xff, 0x00, node, 253, enumerator]);
        p.extend(ps(name));
        p.extend(ps("AFPServer"));
        p.extend(ps("Engineering"));
    }
    let n = Nbp::parse(&p).unwrap();
    assert_eq!(n.tuples.len(), 2);
    assert_eq!(n.tuples[1].enumerator, 3);
    assert_eq!(
        n.to_string(),
        "LkUp-Reply id 7  Mac IIci:AFPServer@Engineering at 65280.128:253  \
         SE/30:AFPServer@Engineering at 65280.129:253 #3"
    );
}

#[test]
fn nbp_nbp_rejects_bad_function_and_truncated_tuple() {
    assert!(Nbp::parse(&[0x00, 1]).is_none()); // function 0
    assert!(Nbp::parse(&[(2 << 4) | 1, 1, 0xff, 0x00]).is_none()); // tuple cut short
}

#[test]
fn nbp_encodes_known_bytes() {
    let n = Nbp {
        func: NbpFunc::LkUp,
        id: 42,
        tuples: vec![NbpTuple {
            addr: Addr { net: 65280, node: 128 },
            socket: 253,
            enumerator: 0,
            object: "=".into(),
            typ: "AFPServer".into(),
            zone: "*".into(),
        }],
    };
    let mut want = vec![(2 << 4) | 1, 42, 0xff, 0x00, 128, 253, 0];
    want.extend(ps("="));
    want.extend(ps("AFPServer"));
    want.extend(ps("*"));
    assert_eq!(n.to_bytes(), want);
}

#[test]
fn nbp_recomputes_the_tuple_count() {
    let mut p = vec![(3 << 4) | 2, 7];
    for node in [128u8, 129] {
        p.extend([0xff, 0x00, node, 253, 0]);
        p.extend(ps("Mac"));
        p.extend(ps("AFPServer"));
        p.extend(ps("Eng"));
    }
    let mut n = Nbp::parse(&p).unwrap();
    n.tuples.pop(); // one tuple left; the count nibble must follow
    assert_eq!(n.to_bytes()[0], (3 << 4) | 1);
}

#[test]
fn nbp_round_trips() {
    let mut p = vec![(2 << 4) | 1, 42, 0xff, 0x00, 128, 253, 3];
    p.extend(ps("Mac IIci"));
    p.extend(ps("AFPServer"));
    p.extend(ps("Engineering"));
    let n = Nbp::parse(&p).unwrap();
    assert_eq!(Nbp::parse(&n.to_bytes()), Some(n));
}
