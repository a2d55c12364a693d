//! Serial framing of a LocalTalk board.

use appletalk::tashtalk::{fcs, fcs_residue_ok, frame_command, init_sequence, node_command, Decoder};
use appletalk::wire::{Llap, LLAP_ENQ};

#[test]
fn fcs_matches_the_x25_check_value() {
    assert_eq!(fcs(b"123456789"), [0x6e, 0x90]);
}

#[test]
fn fcs_residue_after_feeding_frame_and_fcs() {
    // Feeding a frame plus its own FCS leaves 0xF0B8 in the register — the check
    // a receiver makes. Exposed via `fcs_residue_ok`.
    let mut f = vec![42, 42, LLAP_ENQ];
    f.extend(fcs(&[42, 42, LLAP_ENQ]));
    assert!(fcs_residue_ok(&f));
    f[0] ^= 1;
    assert!(!fcs_residue_ok(&f));
}

#[test]
fn frame_command_appends_the_fcs() {
    let l = Llap::control(42, 42, LLAP_ENQ);
    let mut want = vec![0x01, 42, 42, LLAP_ENQ];
    want.extend(fcs(&[42, 42, LLAP_ENQ]));
    assert_eq!(frame_command(&l), want);
}

#[test]
fn node_command_sets_one_bit() {
    let c = node_command(Some(130));
    assert_eq!(c[0], 0x02);
    assert_eq!(c[1 + 130 / 8], 1 << (130 % 8));
    assert_eq!(c.iter().skip(1).filter(|&&b| b != 0).count(), 1);
    assert!(node_command(None)[1..].iter().all(|&b| b == 0));
}

#[test]
fn init_sequence_layout() {
    let s = init_sequence();
    assert_eq!(s.len(), 1024 + 33 + 2);
    assert!(s[..1024].iter().all(|&b| b == 0));
    assert_eq!(s[1024], 0x02);
    assert_eq!(&s[1057..], &[0x03, 0x00]);
}

#[test]
fn decoder_unescapes_and_verifies() {
    let frame = [42, 0, LLAP_ENQ]; // a literal zero in the source byte
    let mut wire = Vec::new();
    for &b in frame.iter().chain(fcs(&frame).iter()) {
        if b == 0 { wire.extend([0x00, 0xff]) } else { wire.push(b) }
    }
    wire.extend([0x00, 0xfd]);
    let mut d = Decoder::new();
    let mut got = None;
    for &b in &wire { if let Some(l) = d.feed(b) { got = Some(l) } }
    assert_eq!(got, Some(Llap { dst: 42, src: 0, typ: LLAP_ENQ, data: vec![] }));
}

#[test]
fn decoder_discards_on_errors_and_bad_fcs() {
    let mut d = Decoder::new();
    for &b in &[42u8, 42, LLAP_ENQ, 1, 2, 0x00, 0xfd] { assert_eq!(d.feed(b), None); } // wrong FCS
    for &b in &[42u8, 42, LLAP_ENQ, 0x00, 0xfe] { assert_eq!(d.feed(b), None); }       // framing error
    for &b in &[42u8, 42, 0x00, 0xfa] { assert_eq!(d.feed(b), None); }                 // aborted
    for &b in &[42u8, 42, 0x00, 0xfc] { assert_eq!(d.feed(b), None); }                 // bad crc reported
    // And the decoder is clean afterwards: a good frame still decodes.
    let f = [1u8, 1, LLAP_ENQ];
    let mut wire = f.to_vec(); wire.extend(fcs(&f)); wire.extend([0x00, 0xfd]);
    let mut got = None;
    for &b in &wire { if let Some(l) = d.feed(b) { got = Some(l) } }
    assert!(got.is_some());
}

#[test]
fn node_numbers_that_nobody_has_are_not_set() {
    assert_eq!(node_command(Some(0)), node_command(None));
    assert_eq!(node_command(Some(255)), node_command(None));
    assert_ne!(node_command(Some(254)), node_command(None));
}

/// What a board writes for a frame: a zero is escaped, the end marked.
fn on_the_line(frame: &[u8]) -> Vec<u8> {
    let mut wire = Vec::new();
    for &b in frame.iter().chain(fcs(frame).iter()) {
        wire.push(b);
        if b == 0 {
            wire.push(0xff);
        }
    }
    wire.extend([0x00, 0xfd]);
    wire
}

fn last(d: &mut Decoder, bytes: &[u8]) -> Option<Llap> {
    let mut got = None;
    for &b in bytes {
        got = d.feed(b);
    }
    got
}

#[test]
fn any_one_wrong_byte_is_caught() {
    let f = [42u8, 7, 1, 0, 5, 9];
    let mut whole = f.to_vec();
    whole.extend(fcs(&f));
    for i in 0..whole.len() {
        for bit in 0..8 {
            let mut bad = whole.clone();
            bad[i] ^= 1 << bit;
            assert!(!fcs_residue_ok(&bad), "byte {i} bit {bit}");
        }
    }
}

#[test]
fn a_decoder_gives_back_what_was_framed_and_recovers_from_a_flood() {
    let f = [42u8, 7, 1, 0, 5, 9];
    let mut d = Decoder::new();
    assert_eq!(last(&mut d, &on_the_line(&f)), Llap::parse(&f));
    // Far more than a frame can hold, then an end mark.
    assert_eq!(last(&mut d, &vec![0x55; 5000]), None);
    assert_eq!(last(&mut d, &[0x00, 0xfd]), None);
    assert_eq!(last(&mut d, &on_the_line(&f)), Llap::parse(&f));
}

#[test]
fn a_frame_that_is_too_long_is_discarded_whatever_it_begins_with() {
    // The longest frame: a header and 600 bytes of data that count themselves.
    let mut f = vec![42u8, 7, 1, 0x02, 0x58];
    f.extend((0..598).map(|i| (i % 251) as u8));
    let mut d = Decoder::new();
    let wire = on_the_line(&f);
    assert_eq!(last(&mut d, &wire), Llap::parse(&f));
    assert!(Llap::parse(&f).is_some());
    // One byte more behind its FCS, and it is none.
    let mut over = wire[..wire.len() - 2].to_vec();
    over.extend([0x55, 0x00, 0xfd]);
    assert_eq!(last(&mut d, &over), None);
    // A zero too many is one as well.
    let mut over = wire[..wire.len() - 2].to_vec();
    over.extend([0x00, 0xff, 0x00, 0xfd]);
    assert_eq!(last(&mut d, &over), None);
    assert_eq!(last(&mut d, &wire), Llap::parse(&f));
}
