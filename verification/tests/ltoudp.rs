//! LocalTalk over UDP multicast.

use appletalk::ltoudp::{datagram, group, inbound, MAX, PORT};
use appletalk::wire::{Llap, LLAP_ENQ};

#[test]
fn the_group_is_the_one_everyone_else_uses() {
    // 76 and 84 are ASCII 'L' and 'T'.
    assert_eq!(group().octets(), [239, 192, 76, 84]);
    assert_eq!(PORT, 1954);
}

#[test]
fn a_datagram_is_the_sender_id_then_the_llap_frame() {
    let id = [0x00, 0x00, 0x30, 0x39];
    let f = Llap::control(42, 42, LLAP_ENQ);
    assert_eq!(datagram(id, &f), vec![0x00, 0x00, 0x30, 0x39, 42, 42, 0x81]);
}

#[test]
fn our_own_datagrams_are_recognised_and_everything_short_is_dropped() {
    let id = [1, 2, 3, 4];
    // Four bytes of sender ID and a 3-byte LLAP header is the shortest
    // thing that can mean anything.
    assert_eq!(inbound(&[1, 2, 3, 4, 42, 42], id), None);
    assert_eq!(inbound(&[], id), None);
    // Ours, echoed back off the group.
    assert_eq!(inbound(&[1, 2, 3, 4, 42, 42, 0x81], id), None);
    // Someone else's.
    assert_eq!(
        inbound(&[9, 9, 9, 9, 42, 42, 0x81], id),
        Some(Llap::control(42, 42, 0x81))
    );
}

#[test]
fn a_frame_that_does_not_parse_is_skipped() {
    // $83 is a reserved control type and must be discarded.
    assert_eq!(inbound(&[9, 9, 9, 9, 1, 2, 0x83], [1, 2, 3, 4]), None);
}

#[test]
fn a_truncated_oversized_datagram_is_rejected() {
    // recv_from truncates silently at the buffer size with no signal;
    // MAX + 1 bytes is what a bigger-than-legal datagram looks like once
    // truncated to the read buffer, and must not be mistaken for a
    // genuine maximum-size frame.
    let buf = vec![9u8; MAX + 1];
    assert_eq!(inbound(&buf, [1, 2, 3, 4]), None);
}

#[test]
fn everyone_but_the_sender_hears_a_frame() {
    let f = Llap { dst: 255, src: 42, typ: 1, data: vec![0, 9, 4, 4, 1, 2, 3, 4, 5] };
    let d = datagram([1, 2, 3, 4], &f);
    assert_eq!(inbound(&d, [9, 9, 9, 9]), Some(f));
    assert_eq!(inbound(&d, [1, 2, 3, 4]), None);
}
