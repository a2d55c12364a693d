//! TashTalk: a LocalTalk link over a serial port, as the TashTalk firmware
//! frames it.
//!
//! The firmware is a PIC that does LocalTalk's bit-level work -- flags, bit
//! stuffing, the CSMA/CA dialog -- and speaks a byte protocol over a 1 Mbaud
//! UART with hardware flow control. Host to firmware it is command bytes:
//! `$01` a frame to transmit, `$02` the 32-byte bitmap of node IDs to answer
//! ENQ and RTS for, `$03` the feature bits. Firmware to host it is a raw byte
//! stream in which `$00` starts a two-byte escape: `$00 $FF` is a literal
//! zero, `$00 $FD` ends a good frame, and `$00 $FE`, `$00 $FA` and `$00 $FC`
//! each mean discard what came before.
//!
//! Unlike LToUDP, this link is real LocalTalk, so frames carry the 2-byte FCS
//! -- CRC-CCITT, computed over the header and data field only. `wire::Llap`
//! has no room for one, so it is appended on the way out and verified and
//! stripped on the way in.

use vstd::prelude::*;
use vstd::slice::*;

use crate::wire::llap::LlapView;
use crate::wire::{push_bytes, Encode, Llap};

verus! {

/// The firmware's only baud rate.
pub const BAUD: u32 = 1_000_000;

/// A 3-byte header, a 600-byte data field and the 2-byte FCS.
pub const MAX_FRAME: usize = 605;

/// What a frame and its own FCS leave in the register.
pub const RESIDUE: u16 = 0xf0b8;

/// One bit through the register: CRC-CCITT with the polynomial reflected,
/// $8408 being $1021 bit-reversed.
pub open spec fn crc_bit(c: u16) -> u16 {
    if c & 1 != 0 {
        (c >> 1) ^ 0x8408
    } else {
        c >> 1
    }
}

/// Eight bits through the register.
pub open spec fn crc_eight(x: u16) -> u16 {
    crc_bit(crc_bit(crc_bit(crc_bit(crc_bit(crc_bit(crc_bit(crc_bit(x))))))))
}

/// One byte through the register.
#[verifier::opaque]
pub open spec fn crc_byte(c: u16, b: u8) -> u16 {
    crc_eight(c ^ (b as u16))
}

/// A whole frame through the register, which starts at $FFFF.
pub open spec fn crc_of(f: Seq<u8>) -> u16
    decreases f.len(),
{
    if f.len() == 0 {
        0xffff
    } else {
        crc_byte(crc_of(f.drop_last()), f.last())
    }
}

/// The frame check sequence: the register inverted, low byte first, which is
/// the order LLAP puts it on the wire.
pub open spec fn fcs_of(f: Seq<u8>) -> Seq<u8> {
    let c = crc_of(f);
    seq![((c & 0xff) as u8) ^ 0xff, ((c >> 8) as u8) ^ 0xff]
}

fn crc_step(c: u16) -> (r: u16)
    ensures
        r == crc_bit(c),
{
    if c & 1 != 0 {
        (c >> 1) ^ 0x8408
    } else {
        c >> 1
    }
}

/// CRC-CCITT, a byte at a time.
fn crc_update(crc: u16, byte: u8) -> (r: u16)
    ensures
        r == crc_byte(crc, byte),
{
    reveal(crc_byte);
    let c = crc_step(crc_step(crc_step(crc_step(crc ^ (byte as u16)))));
    crc_step(crc_step(crc_step(crc_step(c))))
}

/// A whole frame through the register.
fn crc(frame: &[u8]) -> (r: u16)
    ensures
        r == crc_of(frame@),
{
    let mut c: u16 = 0xffff;
    assert(frame@.take(0) =~= Seq::empty());
    let mut i: usize = 0;
    while i < frame.len()
        invariant
            i <= frame@.len(),
            c == crc_of(frame@.take(i as int)),
        decreases frame@.len() - i,
    {
        assert(frame@.take(i + 1).drop_last() =~= frame@.take(i as int));
        c = crc_update(c, frame[i]);
        i = i + 1;
    }
    assert(frame@.take(i as int) =~= frame@);
    c
}

/// The frame check sequence over an LLAP header and data field: CRC-16/X-25.
pub fn fcs(frame: &[u8]) -> (r: [u8; 2])
    ensures
        r@ == fcs_of(frame@),
{
    let c = crc(frame);
    let r: [u8; 2] = [((c & 0xff) as u8) ^ 0xff, ((c >> 8) as u8) ^ 0xff];
    assert(r@ =~= fcs_of(frame@));
    r
}

/// Whether a frame *including* its trailing FCS checks out: feeding both
/// leaves a fixed residue in the register. Cheaper and less error-prone than
/// recomputing and comparing.
pub fn fcs_residue_ok(frame_with_fcs: &[u8]) -> (r: bool)
    ensures
        r == (crc_of(frame_with_fcs@) == RESIDUE),
{
    crc(frame_with_fcs) == RESIDUE
}

// ------------------------------------------------------------------ commands

/// A set-node-IDs command: `$02` and a 256-bit little-endian-within-byte
/// bitmap. Without a node it is clear, so that the firmware answers ENQ and RTS
/// for nobody. Node 0 and node 255 are not legal IDs and can never be set.
pub open spec fn node_bytes(node: Option<u8>) -> Seq<u8> {
    Seq::new(
        33,
        |i: int|
            if i == 0 {
                0x02u8
            } else if node matches Some(n) && 0 < n < 255 && i == 1 + n / 8 {
                1u8 << (node->0 % 8)
            } else {
                0u8
            },
    )
}

pub fn node_command(node: Option<u8>) -> (r: [u8; 33])
    ensures
        r@ == node_bytes(node),
{
    let mut out: [u8; 33] = [0u8; 33];
    out[0] = 0x02;
    if let Some(n) = node {
        if 0 < n && n < 255 {
            // Bit n of the map: byte n/8, and within it the bit for n%8
            // counting up from the least significant.
            out[1 + n as usize / 8] = 1u8 << (n % 8);
        }
    }
    assert(out@ =~= node_bytes(node));
    out
}

/// 1024 zeros.
pub open spec fn no_ops() -> Seq<u8> {
    Seq::new(1024, |i: int| 0u8)
}

/// What to send the moment the port opens. 1024 `$00` no-ops return the
/// firmware's receiver to the state where it awaits a command byte no matter
/// what it was mid-way through, then an all-zero node bitmap (answer for
/// nobody until we have claimed an address) and `$03 $00` to clear every
/// optional feature -- we compute and check our own CRCs.
pub fn init_sequence() -> (r: Vec<u8>)
    ensures
        r@ == no_ops() + node_bytes(None) + seq![0x03u8, 0x00u8],
{
    let mut out: Vec<u8> = Vec::new();
    let mut i: usize = 0;
    while i < 1024
        invariant
            i <= 1024,
            out@ == no_ops().take(i as int),
        decreases 1024 - i,
    {
        out.push(0);
        i = i + 1;
        assert(out@ =~= no_ops().take(i as int));
    }
    assert(out@ =~= no_ops());
    let n = node_command(None);
    push_bytes(&mut out, &n);
    out.push(0x03);
    out.push(0x00);
    assert(out@ =~= no_ops() + node_bytes(None) + seq![0x03u8, 0x00u8]);
    out
}

/// A transmit command: `$01` and then the frame with its FCS appended. The
/// firmware infers the length from the frame itself and needs no terminator.
pub fn frame_command(l: &Llap) -> (r: Vec<u8>)
    ensures
        r@ == seq![0x01u8] + l.deep_view().bytes() + fcs_of(l.deep_view().bytes()),
{
    let frame = l.to_bytes();
    let mut out: Vec<u8> = Vec::new();
    out.push(0x01);
    push_bytes(&mut out, frame.as_slice());
    let check = fcs(frame.as_slice());
    push_bytes(&mut out, &check);
    assert(out@ =~= seq![0x01u8] + l.deep_view().bytes() + fcs_of(l.deep_view().bytes()));
    out
}

// ------------------------------------------------------------------- decoder

/// Reassembles the firmware's escaped byte stream into frames.
pub struct Decoder {
    pub buf: Vec<u8>,
    /// Set by a `$00`; the next byte is the second half of an escape.
    pub escaped: bool,
    /// Set by a byte past the longest frame: what is being read is none.
    pub over: bool,
}

/// A decoder, as data.
pub struct DecoderView {
    pub buf: Seq<u8>,
    pub escaped: bool,
    pub over: bool,
}

impl DeepView for Decoder {
    type V = DecoderView;

    open spec fn deep_view(&self) -> DecoderView {
        DecoderView { buf: self.buf@, escaped: self.escaped, over: self.over }
    }
}

impl DecoderView {
    pub open spec fn clean() -> DecoderView {
        DecoderView { buf: Seq::empty(), escaped: false, over: false }
    }

    /// With one more byte of a frame. Over-long frames drop the excess, and
    /// are discarded at their end whatever the rest of them is.
    pub open spec fn with(self, b: u8) -> DecoderView {
        DecoderView {
            buf: if self.buf.len() < MAX_FRAME {
                self.buf.push(b)
            } else {
                self.buf
            },
            escaped: false,
            over: self.over || self.buf.len() >= MAX_FRAME,
        }
    }

    /// What the bytes so far say, if this is the end of a good frame.
    pub open spec fn frame(self) -> Option<LlapView> {
        let n = self.buf.len();
        if !self.over && n >= 5 && crc_of(self.buf) == RESIDUE {
            LlapView::parse(self.buf.take(n - 2))
        } else {
            None
        }
    }

    /// One byte of the stream. $FE is a framing error, $FA an abort, $FC a bad
    /// CRC -- and anything else after a zero means we lost sync and cannot
    /// trust the buffer either.
    pub open spec fn fed(self, b: u8) -> (DecoderView, Option<LlapView>) {
        if !self.escaped {
            if b == 0 {
                (DecoderView { escaped: true, ..self }, None)
            } else {
                (self.with(b), None)
            }
        } else if b == 0xff {
            (self.with(0), None)
        } else if b == 0xfd {
            (Self::clean(), self.frame())
        } else {
            (Self::clean(), None)
        }
    }
}

impl Decoder {
    pub fn new() -> (r: Decoder)
        ensures
            r.deep_view() == DecoderView::clean(),
    {
        Decoder { buf: Vec::new(), escaped: false, over: false }
    }

    fn keep(&mut self, b: u8)
        ensures
            final(self).deep_view() == (DecoderView {
                escaped: old(self).escaped,
                ..old(self).deep_view().with(b)
            }),
    {
        if self.buf.len() < MAX_FRAME {
            self.buf.push(b);
        } else {
            self.over = true;
        }
    }

    /// Feeds one byte, returning a frame when one completes cleanly. Fails
    /// closed everywhere else: a framing error, an abort, a firmware-reported
    /// bad CRC, an FCS that does not check, a frame too short to hold a
    /// header and an FCS, one longer than any frame, or one that does not parse
    /// as LLAP all discard silently and leave the decoder ready for the next
    /// frame.
    pub fn feed(&mut self, byte: u8) -> (r: Option<Llap>)
        ensures
            (final(self).deep_view(), r.deep_view()) == old(self).deep_view().fed(byte),
    {
        if !self.escaped {
            if byte == 0x00 {
                self.escaped = true;
            } else {
                self.keep(byte);
            }
            return None;
        }
        self.escaped = false;
        if byte == 0xff {
            self.keep(0);
            return None;
        }
        let mut frame: Option<Llap> = None;
        if byte == 0xfd {
            let n: usize = self.buf.len();
            if !self.over && n >= 5 && fcs_residue_ok(self.buf.as_slice()) {
                let body = slice_subrange(self.buf.as_slice(), 0, n - 2);
                assert(body@ =~= self.buf@.take(n - 2));
                frame = Llap::parse(body);
            }
        }
        self.buf = Vec::new();
        self.over = false;
        assert(self.deep_view().buf =~= Seq::empty());
        frame
    }
}

impl Default for Decoder {
    fn default() -> (r: Decoder)
        ensures
            r.deep_view() == DecoderView::clean(),
    {
        Decoder::new()
    }
}

// --------------------------------------------------------------------- laws

/// What goes through the register added up comes out added up.
proof fn lemma_bit_adds(a: u16, b: u16)
    ensures
        crc_bit(a ^ b) == crc_bit(a) ^ crc_bit(b),
{
    assert(crc_bit(a ^ b) == crc_bit(a) ^ crc_bit(b)) by (bit_vector);
}

proof fn lemma_eight_adds(a: u16, b: u16)
    ensures
        crc_eight(a ^ b) == crc_eight(a) ^ crc_eight(b),
{
    let (a1, b1) = (crc_bit(a), crc_bit(b));
    let (a2, b2) = (crc_bit(a1), crc_bit(b1));
    let (a3, b3) = (crc_bit(a2), crc_bit(b2));
    let (a4, b4) = (crc_bit(a3), crc_bit(b3));
    let (a5, b5) = (crc_bit(a4), crc_bit(b4));
    let (a6, b6) = (crc_bit(a5), crc_bit(b5));
    let (a7, b7) = (crc_bit(a6), crc_bit(b6));
    lemma_bit_adds(a, b);
    lemma_bit_adds(a1, b1);
    lemma_bit_adds(a2, b2);
    lemma_bit_adds(a3, b3);
    lemma_bit_adds(a4, b4);
    lemma_bit_adds(a5, b5);
    lemma_bit_adds(a6, b6);
    lemma_bit_adds(a7, b7);
}

/// A register whose low byte is clear only shifts.
proof fn lemma_high_byte_shifts(c: u16)
    ensures
        crc_eight(c & 0xff00) == c >> 8,
{
    let y0 = c & 0xff00;
    let y1 = y0 >> 1;
    let y2 = y1 >> 1;
    let y3 = y2 >> 1;
    let y4 = y3 >> 1;
    let y5 = y4 >> 1;
    let y6 = y5 >> 1;
    let y7 = y6 >> 1;
    assert(y0 & 1 == 0 && y1 & 1 == 0 && y2 & 1 == 0 && y3 & 1 == 0 && y4 & 1 == 0 && y5 & 1 == 0
        && y6 & 1 == 0 && y7 & 1 == 0 && y7 >> 1 == c >> 8) by (bit_vector)
        requires
            y0 == c & 0xff00,
            y1 == y0 >> 1,
            y2 == y1 >> 1,
            y3 == y2 >> 1,
            y4 == y3 >> 1,
            y5 == y4 >> 1,
            y6 == y5 >> 1,
            y7 == y6 >> 1,
    ;
}

/// The register after a frame's own FCS, wherever it stood before.
proof fn lemma_residue(c: u16)
    ensures
        crc_byte(
            crc_byte(c, ((c & 0xff) as u8) ^ 0xff),
            ((c >> 8) as u8) ^ 0xff,
        ) == RESIDUE,
{
    reveal(crc_byte);
    let lo = ((c & 0xff) as u8) ^ 0xff;
    let hi = ((c >> 8) as u8) ^ 0xff;
    assert(c ^ (lo as u16) == (c & 0xff00) ^ 0xff) by (bit_vector)
        requires
            lo == ((c & 0xff) as u8) ^ 0xff,
    ;
    lemma_eight_adds(c & 0xff00, 0xff);
    lemma_high_byte_shifts(c);
    assert(crc_bit(0xffu16) == 0x8477u16
            && crc_bit(0x8477u16) == 0xc633u16
            && crc_bit(0xc633u16) == 0xe711u16
            && crc_bit(0xe711u16) == 0xf780u16
            && crc_bit(0xf780u16) == 0x7bc0u16
            && crc_bit(0x7bc0u16) == 0x3de0u16
            && crc_bit(0x3de0u16) == 0x1ef0u16
            && crc_bit(0x1ef0u16) == 0xf78u16) by (bit_vector);
    let k: u16 = 0xf78;
    let mid = (c >> 8) ^ k;
    assert(crc_byte(c, lo) == mid);
    assert(mid ^ (hi as u16) == 0xf87u16) by (bit_vector)
        requires
            hi == ((c >> 8) as u8) ^ 0xff,
            k == 0xf78u16,
            mid == (c >> 8) ^ k,
    ;
    assert(crc_bit(0xf87u16) == 0x83cbu16
            && crc_bit(0x83cbu16) == 0xc5edu16
            && crc_bit(0xc5edu16) == 0xe6feu16
            && crc_bit(0xe6feu16) == 0x737fu16
            && crc_bit(0x737fu16) == 0xbdb7u16
            && crc_bit(0xbdb7u16) == 0xdad3u16
            && crc_bit(0xdad3u16) == 0xe961u16
            && crc_bit(0xe961u16) == 0xf0b8u16) by (bit_vector);
}

/// Law: a frame and its own FCS leave the fixed residue.
pub proof fn law_a_frame_checks_against_its_own_fcs(f: Seq<u8>)
    ensures
        crc_of(f + fcs_of(f)) == RESIDUE,
{
    let c = crc_of(f);
    let s = fcs_of(f);
    let w = f + s;
    assert(w.drop_last() =~= f.push(s[0]));
    assert(f.push(s[0]).drop_last() =~= f);
    assert(w.last() == s[1]);
    assert(crc_of(f.push(s[0])) == crc_byte(c, s[0]));
    assert(crc_of(w) == crc_byte(crc_of(f.push(s[0])), s[1]));
    lemma_residue(c);
}

/// Two registers that come out the same went in the same.
proof fn lemma_bit_tells_apart(a: u16, b: u16)
    requires
        crc_bit(a) == crc_bit(b),
    ensures
        a == b,
{
    assert(crc_bit(a) == crc_bit(b) ==> a == b) by (bit_vector);
}

proof fn lemma_eight_tells_apart(a: u16, b: u16)
    requires
        crc_eight(a) == crc_eight(b),
    ensures
        a == b,
{
    let (a1, b1) = (crc_bit(a), crc_bit(b));
    let (a2, b2) = (crc_bit(a1), crc_bit(b1));
    let (a3, b3) = (crc_bit(a2), crc_bit(b2));
    let (a4, b4) = (crc_bit(a3), crc_bit(b3));
    let (a5, b5) = (crc_bit(a4), crc_bit(b4));
    let (a6, b6) = (crc_bit(a5), crc_bit(b5));
    let (a7, b7) = (crc_bit(a6), crc_bit(b6));
    lemma_bit_tells_apart(a7, b7);
    lemma_bit_tells_apart(a6, b6);
    lemma_bit_tells_apart(a5, b5);
    lemma_bit_tells_apart(a4, b4);
    lemma_bit_tells_apart(a3, b3);
    lemma_bit_tells_apart(a2, b2);
    lemma_bit_tells_apart(a1, b1);
    lemma_bit_tells_apart(a, b);
}

/// Law: a frame in which one byte was altered on the way does not check, so
/// that no such frame is ever taken for the one that was sent.
pub proof fn law_one_bad_byte_is_caught(f: Seq<u8>, i: int, b: u8)
    requires
        0 <= i < f.len(),
        b != f[i],
    ensures
        crc_of(f.update(i, b)) != crc_of(f),
    decreases f.len(),
{
    reveal(crc_byte);
    let g = f.update(i, b);
    let last = f.last();
    if i == f.len() - 1 {
        assert(g.drop_last() =~= f.drop_last());
        let c = crc_of(f.drop_last());
        if crc_byte(c, b) == crc_byte(c, last) {
            lemma_eight_tells_apart(c ^ (b as u16), c ^ (last as u16));
            assert(c ^ (b as u16) == c ^ (last as u16) ==> b == last) by (bit_vector);
        }
    } else {
        assert(g.drop_last() =~= f.drop_last().update(i, b));
        assert(g.last() == last);
        law_one_bad_byte_is_caught(f.drop_last(), i, b);
        let c = crc_of(f.drop_last());
        let d = crc_of(g.drop_last());
        if crc_byte(c, last) == crc_byte(d, last) {
            lemma_eight_tells_apart(c ^ (last as u16), d ^ (last as u16));
            assert(c ^ (last as u16) == d ^ (last as u16) ==> c == d) by (bit_vector);
        }
    }
}

/// Bytes as the firmware sends them: a zero is `$00 $FF`.
pub open spec fn escaped(b: Seq<u8>) -> Seq<u8>
    decreases b.len(),
{
    if b.len() == 0 {
        Seq::empty()
    } else if b.last() == 0 {
        escaped(b.drop_last()) + seq![0x00u8, 0xffu8]
    } else {
        escaped(b.drop_last()).push(b.last())
    }
}

/// A stream through the decoder: where it stands, and the frames it gave.
pub open spec fn run(d: DecoderView, stream: Seq<u8>) -> (DecoderView, Seq<LlapView>)
    decreases stream.len(),
{
    if stream.len() == 0 {
        (d, Seq::empty())
    } else {
        let (e, fs) = run(d, stream.drop_last());
        let (n, f) = e.fed(stream.last());
        (
            n,
            match f {
                Some(l) => fs.push(l),
                None => fs,
            },
        )
    }
}

proof fn lemma_escaped(b: Seq<u8>)
    requires
        b.len() <= MAX_FRAME,
    ensures
        run(DecoderView::clean(), escaped(b)) == (
            DecoderView { buf: b, escaped: false, over: false },
            Seq::<LlapView>::empty(),
        ),
    decreases b.len(),
{
    if b.len() == 0 {
        assert(b =~= Seq::empty());
    } else {
        let a = b.drop_last();
        lemma_escaped(a);
        assert(a.push(b.last()) =~= b);
        let s = escaped(b);
        if b.last() == 0 {
            assert(s.drop_last() =~= escaped(a).push(0x00u8));
            assert(escaped(a).push(0x00u8).drop_last() =~= escaped(a));
            assert(escaped(a).push(0x00u8).last() == 0x00u8);
            assert(run(DecoderView::clean(), escaped(a).push(0x00u8)) == (
                DecoderView { buf: a, escaped: true, over: false },
                Seq::<LlapView>::empty(),
            ));
            assert(s.last() == 0xffu8);
        } else {
            assert(s.drop_last() =~= escaped(a));
            assert(s.last() == b.last());
        }
    }
}

/// Law: a frame the firmware hands up comes out of the decoder as it was, and
/// leaves the decoder ready for the next.
pub proof fn law_the_decoder_gives_back_the_frame(l: LlapView)
    requires
        l.valid(),
    ensures
        run(
            DecoderView::clean(),
            escaped(l.bytes() + fcs_of(l.bytes())) + seq![0x00u8, 0xfdu8],
        ) == (DecoderView::clean(), seq![l]),
{
    let f = l.bytes();
    let b = f + fcs_of(f);
    let s = escaped(b) + seq![0x00u8, 0xfdu8];
    crate::wire::llap::law_round_trip(l);
    law_a_frame_checks_against_its_own_fcs(f);
    lemma_escaped(b);
    assert(s.drop_last() =~= escaped(b).push(0x00u8));
    assert(escaped(b).push(0x00u8).drop_last() =~= escaped(b));
    assert(escaped(b).push(0x00u8).last() == 0x00u8);
    assert(run(DecoderView::clean(), escaped(b).push(0x00u8)) == (
        DecoderView { buf: b, escaped: true, over: false },
        Seq::<LlapView>::empty(),
    ));
    assert(s.last() == 0xfdu8);
    assert(b.take(b.len() - 2) =~= f);
    assert(Seq::<LlapView>::empty().push(l) =~= seq![l]);
}

/// Law: whatever the stream held, the end of a frame or an error leaves the
/// decoder ready for the next frame.
pub proof fn law_the_decoder_recovers(d: DecoderView, b: u8)
    requires
        b != 0xff,
    ensures
        d.fed(0).0.escaped ==> d.fed(0).0.fed(b).0 == DecoderView::clean(),
{
}

/// Where a decoder stands after the bytes of a frame, however long.
proof fn lemma_filled(b: Seq<u8>)
    ensures
        run(DecoderView::clean(), escaped(b)) == (
            DecoderView {
                buf: if b.len() <= MAX_FRAME {
                    b
                } else {
                    b.take(MAX_FRAME as int)
                },
                escaped: false,
                over: b.len() > MAX_FRAME,
            },
            Seq::<LlapView>::empty(),
        ),
    decreases b.len(),
{
    if b.len() <= MAX_FRAME {
        lemma_escaped(b);
    } else {
        let a = b.drop_last();
        lemma_filled(a);
        let full = b.take(MAX_FRAME as int);
        assert(a.take(MAX_FRAME as int) =~= full);
        if a.len() <= MAX_FRAME {
            assert(a =~= full);
        }
        let s = escaped(b);
        if b.last() == 0 {
            assert(s.drop_last() =~= escaped(a).push(0x00u8));
            assert(escaped(a).push(0x00u8).drop_last() =~= escaped(a));
            assert(escaped(a).push(0x00u8).last() == 0x00u8);
            assert(run(DecoderView::clean(), escaped(a).push(0x00u8)) == (
                DecoderView { buf: full, escaped: true, over: a.len() > MAX_FRAME },
                Seq::<LlapView>::empty(),
            ));
            assert(s.last() == 0xffu8);
        } else {
            assert(s.drop_last() =~= escaped(a));
            assert(s.last() == b.last());
        }
    }
}

/// Law: a frame longer than any may be is discarded, whatever it begins with.
pub proof fn law_an_over_long_frame_is_discarded(b: Seq<u8>)
    requires
        b.len() > MAX_FRAME,
    ensures
        run(DecoderView::clean(), escaped(b) + seq![0x00u8, 0xfdu8]) == (
            DecoderView::clean(),
            Seq::<LlapView>::empty(),
        ),
{
    let s = escaped(b) + seq![0x00u8, 0xfdu8];
    lemma_filled(b);
    assert(s.drop_last() =~= escaped(b).push(0x00u8));
    assert(escaped(b).push(0x00u8).drop_last() =~= escaped(b));
    assert(escaped(b).push(0x00u8).last() == 0x00u8);
    assert(run(DecoderView::clean(), escaped(b).push(0x00u8)) == (
        DecoderView { buf: b.take(MAX_FRAME as int), escaped: true, over: true },
        Seq::<LlapView>::empty(),
    ));
    assert(s.last() == 0xfdu8);
}

/// Law: the firmware is told to answer for one node alone: of the 256 bits
/// behind the 2, counted from the least significant of each byte, only that of
/// the node is set, and none for 0, for 255 or without a node.
pub proof fn law_one_node_is_answered_for(node: Option<u8>, m: u8)
    ensures
        node_bytes(node).len() == 33,
        node_bytes(node)[0] == 2,
        ((node_bytes(node)[1 + m / 8] >> (m % 8)) & 1 == 1) == (node == Some(m) && 0 < m < 255),
{
    let i = m % 8;
    let x = node_bytes(node)[1 + m / 8];
    assert((0u8 >> i) & 1 == 0) by (bit_vector);
    if let Some(n) = node {
        let j = n % 8;
        assert(i < 8 && j < 8 ==> (((1u8 << j) >> i) & 1 == 1) == (i == j)) by (bit_vector);
        if n / 8 == m / 8 && i == j {
            assert(n == m);
        }
        assert(x == 0 || x == 1u8 << j);
    }
}

/// Law: a frame comes out only where 00 FD ends one: of at least five and at
/// most 605 bytes, with its check sequence right, and then it is the bytes before
/// that. Any other byte behind 00, but for FF, throws away what came before.
pub proof fn law_only_good_frames_come_out(d: DecoderView, b: u8)
    ensures
        d.fed(b).1 matches Some(l) ==> {
            &&& d.escaped && b == 0xfd && !d.over && d.buf.len() >= 5
            &&& crc_of(d.buf) == 0xf0b8
            &&& LlapView::parse(d.buf.take(d.buf.len() - 2)) == Some(l)
        },
        d.escaped && b != 0xff ==> d.fed(b).0.buf.len() == 0 && !d.fed(b).0.escaped && !d.fed(
            b,
        ).0.over,
        d.escaped && b == 0xff && d.buf.len() < 605 ==> d.fed(b).0.buf == d.buf.push(0),
        !d.escaped && b != 0 && d.buf.len() < 605 ==> d.fed(b).0.buf == d.buf.push(b),
        !d.escaped && b == 0 ==> d.fed(b).0.buf == d.buf && d.fed(b).0.escaped,
        (!d.escaped && b != 0 || d.escaped && b == 0xff) && d.buf.len() >= 605 ==> d.fed(b).0.over,
{
}

/// Law: whatever was read before, an error in the stream throws it away and
/// gives no frame.
pub proof fn law_an_error_discards(b: Seq<u8>, code: u8)
    requires
        code != 0xff,
        code != 0xfd,
    ensures
        run(DecoderView::clean(), escaped(b) + seq![0x00u8, code]) == (
            DecoderView::clean(),
            Seq::<LlapView>::empty(),
        ),
{
    let s = escaped(b) + seq![0x00u8, code];
    lemma_filled(b);
    assert(s.drop_last() =~= escaped(b).push(0x00u8));
    assert(escaped(b).push(0x00u8).drop_last() =~= escaped(b));
    assert(escaped(b).push(0x00u8).last() == 0x00u8);
    assert(run(DecoderView::clean(), escaped(b).push(0x00u8)).0.escaped);
    assert(run(DecoderView::clean(), escaped(b).push(0x00u8)).1 =~= Seq::<LlapView>::empty());
    assert(s.last() == code);
}

} // verus!
