//! Transaction packets.

use appletalk::wire::{Atp, Func};

/// An ATP header with tid 4660 and user bytes 01 02 03 04.
fn atp(control: u8, bitmap: u8, data: &[u8]) -> Vec<u8> {
    let mut p = vec![control, bitmap, 0x12, 0x34, 1, 2, 3, 4];
    p.extend(data);
    p
}

#[test]
fn atp_atp_treq_exactly_once() {
    // 0x40 TReq | 0x20 XO | timeout 0 (30s)
    let p = atp(0x60, 0x07, &[9, 9]);
    let a = Atp::parse(&p).unwrap();
    assert_eq!((a.func, a.tid, a.bitmap), (Func::Req, 4660, 0x07));
    assert!(a.xo() && !a.eom());
    assert_eq!(a.data, [9, 9]);
    assert_eq!(a.to_string(), "TReq tid 4660 bitmap 0x07 XO(30s) user 01020304");
}

#[test]
fn atp_atp_tresp_flags() {
    // 0x80 TResp | 0x10 EOM | 0x08 STS, sequence number 2
    let p = atp(0x98, 2, &[]);
    let a = Atp::parse(&p).unwrap();
    assert_eq!(a.func, Func::Resp);
    assert_eq!(a.to_string(), "TResp tid 4660 seq 2 EOM STS user 01020304");
}

#[test]
fn atp_atp_trel_omits_bitmap() {
    let p = atp(0xc0, 0, &[]);
    let a = Atp::parse(&p).unwrap();
    assert_eq!(a.to_string(), "TRel tid 4660 user 01020304");
}

#[test]
fn atp_atp_rejects_reserved_func_and_short() {
    assert!(Atp::parse(&atp(0x00, 0, &[])).is_none()); // function code 00
    assert!(Atp::parse(&atp(0x40, 0, &[])[..7]).is_none()); // truncated header
}
