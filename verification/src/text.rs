//! Plain text: one indented block per packet.

use vstd::prelude::*;
use vstd::slice::*;
use vstd::string::*;

use crate::cli::{Output, OutputView};
use crate::fmt;
use crate::session::{messages, pushed, Message, MessageView, PartialView, Session};
use crate::wire;
use crate::wire::ddp::DdpView;
use crate::wire::frame::{BodyView, DdpBodyView, FrameView, PacketView};
use crate::wire::{Body, Ddp, DdpBody, Frame, Packet};

verus! {

/// A number in exactly `w` decimal digits.
pub open spec fn zero_padded(n: nat, w: nat) -> Seq<char>
    decreases w,
{
    if w == 0 {
        Seq::empty()
    } else {
        zero_padded(n / 10, (w - 1) as nat).push(fmt::digit_char(n % 10))
    }
}

fn push_zero_padded(out: &mut String, n: u64, w: u8)
    ensures
        final(out)@ == old(out)@ + zero_padded(n as nat, w as nat),
    decreases w,
{
    if w > 0 {
        push_zero_padded(out, n / 10, w - 1);
        out.push(fmt::digit((n % 10) as u8));
        assert(out@ =~= old(out)@ + zero_padded(n as nat, w as nat));
    } else {
        assert(out@ =~= old(out)@ + zero_padded(n as nat, 0));
    }
}

/// Wall clock, UTC, no date -- a dumper's reader cares about the seconds
/// between packets, not the day. The time is in milliseconds since the epoch.
pub open spec fn timestamp_of(at: u64) -> Seq<char> {
    let s = at / 1000;
    zero_padded(((s / 3600) % 24) as nat, 2) + ":"@ + zero_padded(((s / 60) % 60) as nat, 2) + ":"@
        + zero_padded((s % 60) as nat, 2) + "."@ + zero_padded((at % 1000) as nat, 3)
}

pub fn timestamp(at: u64) -> (r: String)
    ensures
        r@ == timestamp_of(at),
{
    let s: u64 = at / 1000;
    let mut out = String::new();
    push_zero_padded(&mut out, (s / 3600) % 24, 2);
    fmt::push_text(&mut out, ":");
    push_zero_padded(&mut out, (s / 60) % 60, 2);
    fmt::push_text(&mut out, ":");
    push_zero_padded(&mut out, s % 60, 2);
    fmt::push_text(&mut out, ".");
    push_zero_padded(&mut out, at % 1000, 3);
    assert(out@ =~= timestamp_of(at));
    out
}

// ------------------------------------------------------------------ hex dumps

/// An offset in at least four hexadecimal digits.
pub open spec fn offset_text(n: nat) -> Seq<char>
    decreases n,
{
    if n < 0x10000 {
        fmt::hex(n, 4)
    } else {
        offset_text(n / 16).push(fmt::digit_char(n % 16))
    }
}

fn push_offset(out: &mut String, n: u64)
    ensures
        final(out)@ == old(out)@ + offset_text(n as nat),
    decreases n,
{
    if n < 0x10000 {
        fmt::push_hex(out, n, 4);
    } else {
        push_offset(out, n / 16);
        out.push(fmt::digit((n % 16) as u8));
        assert(out@ =~= old(out)@ + offset_text(n as nat));
    }
}

/// Bytes in hexadecimal, a space behind each.
pub open spec fn hexes(b: Seq<u8>) -> Seq<char>
    decreases b.len(),
{
    if b.len() == 0 {
        Seq::empty()
    } else {
        hexes(b.drop_last()) + fmt::hex(b.last() as nat, 2) + " "@
    }
}

/// Sixteen bytes of a dump, or what is left.
pub open spec fn row(b: Seq<u8>, i: nat) -> Seq<u8> {
    b.subrange(
        16 * i as int,
        if 16 * (i + 1) <= b.len() {
            16 * (i + 1) as int
        } else {
            b.len() as int
        },
    )
}

/// One line of a dump: the offset, the bytes, and the printable ones among
/// them.
pub open spec fn row_text(b: Seq<u8>, i: nat) -> Seq<char> {
    "  "@ + offset_text(16 * i) + "  "@ + fmt::pad_right(hexes(row(b, i)), 48) + "|"@
        + wire::name_text(row(b, i)) + "|\n"@
}

pub open spec fn rows_text(b: Seq<u8>, n: nat) -> Seq<char>
    decreases n,
{
    if n == 0 {
        Seq::empty()
    } else {
        rows_text(b, (n - 1) as nat) + row_text(b, (n - 1) as nat)
    }
}

/// A dump, sixteen bytes to a line.
pub open spec fn dump_text(b: Seq<u8>) -> Seq<char> {
    rows_text(b, ((b.len() + 15) / 16) as nat)
}

fn push_row(out: &mut String, chunk: &[u8], at: u64, Ghost(b): Ghost<Seq<u8>>, Ghost(i): Ghost<nat>)
    requires
        chunk@ == row(b, i),
        at == 16 * i,
    ensures
        final(out)@ == old(out)@ + row_text(b, i),
{
    let mut hex = String::new();
    let mut ascii = String::new();
    assert(chunk@.take(0) =~= Seq::empty());
    assert(ascii@ =~= wire::name_text(chunk@.take(0)));
    let mut k: usize = 0;
    while k < chunk.len()
        invariant
            k <= chunk@.len(),
            hex@ == hexes(chunk@.take(k as int)),
            ascii@ == wire::name_text(chunk@.take(k as int)),
        decreases chunk@.len() - k,
    {
        let x = chunk[k];
        assert(chunk@.take(k + 1).drop_last() =~= chunk@.take(k as int));
        fmt::push_hex(&mut hex, x as u64, 2);
        fmt::push_text(&mut hex, " ");
        ascii.push(
            if 0x20 <= x && x < 0x7f {
                x as char
            } else {
                '.'
            },
        );
        k = k + 1;
        assert(ascii@ =~= wire::name_text(chunk@.take(k as int)));
    }
    assert(chunk@.take(k as int) =~= chunk@);
    fmt::push_text(out, "  ");
    push_offset(out, at);
    fmt::push_text(out, "  ");
    fmt::push_padded(out, hex.as_str(), 48);
    fmt::push_text(out, "|");
    fmt::push_text(out, ascii.as_str());
    fmt::push_text(out, "|\n");
    assert(out@ =~= old(out)@ + row_text(b, i));
}

/// Appends a dump of bytes.
pub fn hexdump(out: &mut String, b: &[u8])
    ensures
        final(out)@ == old(out)@ + dump_text(b@),
{
    let ghost before = out@;
    assert(before =~= before + rows_text(b@, 0));
    let mut at: usize = 0;
    let ghost mut i: nat = 0;
    while at < b.len()
        invariant
            at == 16 * i || at == b@.len(),
            at <= b@.len(),
            at < b@.len() ==> at == 16 * i,
            at == b@.len() ==> i == (b@.len() + 15) / 16,
            out@ == before + rows_text(b@, i),
        decreases b@.len() - at,
    {
        let end: usize = if b.len() - at > 16 {
            at + 16
        } else {
            b.len()
        };
        let chunk = slice_subrange(b, at, end);
        assert(chunk@ =~= row(b@, i));
        push_row(out, chunk, at as u64, Ghost(b@), Ghost(i));
        proof {
            i = i + 1;
            assert(out@ =~= before + rows_text(b@, i));
        }
        at = end;
    }
}

// -------------------------------------------------------------------- packets

/// The lines of a datagram's body. A body that is decoded in full is not
/// dumped: a dump would just repeat it.
pub open spec fn body_text(data: Seq<u8>, b: DdpBodyView, hex: bool) -> Seq<char> {
    match b {
        DdpBodyView::Atp(a) => "    "@ + a.text() + "\n"@ + (if hex {
            dump_text(a.data)
        } else {
            Seq::empty()
        }),
        DdpBodyView::Aep(a) => "    "@ + a.text() + "\n"@ + (if hex {
            dump_text(a.data)
        } else {
            Seq::empty()
        }),
        DdpBodyView::Nbp(n) => "    "@ + n.text() + "\n"@,
        DdpBodyView::Zip(z) => "    "@ + z.text() + "\n"@,
        DdpBodyView::Rtmp(r) => "    "@ + r.text() + "\n"@,
        // No protocol line to print: without a dump this packet shows only its
        // outer lines, and with those hidden too, nothing.
        DdpBodyView::Unknown => if hex {
            dump_text(data)
        } else {
            Seq::empty()
        },
    }
}

/// The line a frame gets.
pub open spec fn link_text(at: u64, f: FrameView, o: OutputView) -> Seq<char> {
    if o.no_link {
        Seq::empty()
    } else {
        timestamp_of(at) + (" "@ + f.text() + "\n"@)
    }
}

/// The line a datagram gets.
pub open spec fn net_text(d: DdpView, o: OutputView) -> Seq<char> {
    if o.no_net {
        Seq::empty()
    } else {
        "  "@ + d.text() + "\n"@
    }
}

/// What a frame carries.
pub open spec fn inner_text(p: PacketView, o: OutputView) -> Seq<char> {
    match p.body {
        // Fully decoded: a dump would just repeat it.
        BodyView::Aarp(a) => "  "@ + a.text() + "\n"@,
        BodyView::Ddp(d, inner) => net_text(d, o) + body_text(d.data, inner, o.hex),
        BodyView::Unknown => if o.hex {
            dump_text(p.frame.payload)
        } else {
            Seq::empty()
        },
    }
}

/// A packet's block.
pub open spec fn packet_block(at: u64, p: PacketView, o: OutputView) -> Seq<char> {
    link_text(at, p.frame, o) + inner_text(p, o)
}

fn push_line(out: &mut String, indent: &str, line: String)
    ensures
        final(out)@ == old(out)@ + (indent@ + line@ + "\n"@),
{
    fmt::push_text(out, indent);
    fmt::push_text(out, line.as_str());
    fmt::push_text(out, "\n");
    assert(out@ =~= old(out)@ + (indent@ + line@ + "\n"@));
}

fn push_body(out: &mut String, data: &Vec<u8>, b: &DdpBody, hex: bool)
    ensures
        final(out)@ == old(out)@ + body_text(data@, b.deep_view(), hex),
{
    match b {
        DdpBody::Atp(a) => {
            push_line(out, "    ", a.to_string());
            if hex {
                hexdump(out, a.data.as_slice());
            }
        },
        DdpBody::Aep(a) => {
            push_line(out, "    ", a.to_string());
            if hex {
                hexdump(out, a.data.as_slice());
            }
        },
        DdpBody::Nbp(n) => push_line(out, "    ", n.to_string()),
        DdpBody::Zip(z) => push_line(out, "    ", z.to_string()),
        DdpBody::Rtmp(r) => push_line(out, "    ", r.to_string()),
        DdpBody::Unknown => if hex {
            hexdump(out, data.as_slice());
        },
    }
    assert(out@ =~= old(out)@ + body_text(data@, b.deep_view(), hex));
}

fn push_link(out: &mut String, at: u64, f: &Frame, o: &Output)
    ensures
        final(out)@ == old(out)@ + link_text(at, f.deep_view(), o.deep_view()),
{
    if !o.no_link {
        let t = timestamp(at);
        fmt::push_text(out, t.as_str());
        push_line(out, " ", f.to_string());
    }
    assert(out@ =~= old(out)@ + link_text(at, f.deep_view(), o.deep_view()));
}

fn push_net(out: &mut String, d: &Ddp, o: &Output)
    ensures
        final(out)@ == old(out)@ + net_text(d.deep_view(), o.deep_view()),
{
    if !o.no_net {
        push_line(out, "  ", d.to_string());
    }
    assert(out@ =~= old(out)@ + net_text(d.deep_view(), o.deep_view()));
}

fn push_inner(out: &mut String, p: &Packet, o: &Output)
    ensures
        final(out)@ == old(out)@ + inner_text(p.deep_view(), o.deep_view()),
{
    match &p.body {
        Body::Aarp(a) => push_line(out, "  ", a.to_string()),
        Body::Ddp(d, inner) => {
            push_net(out, d, o);
            push_body(out, &d.data, inner, o.hex);
        },
        Body::Unknown => if o.hex {
            hexdump(out, p.frame.payload.as_slice());
        },
    }
    assert(out@ =~= old(out)@ + inner_text(p.deep_view(), o.deep_view()));
}

/// Appends a packet's block.
pub fn print_packet(out: &mut String, at: u64, p: &Packet, o: &Output)
    ensures
        final(out)@ == old(out)@ + packet_block(at, p.deep_view(), o.deep_view()),
{
    push_link(out, at, &p.frame, o);
    push_inner(out, p, o);
    assert(out@ =~= old(out)@ + packet_block(at, p.deep_view(), o.deep_view()));
}

/// Reassembled messages are indented under the packets that produced them.
pub fn print_message(out: &mut String, m: &Message)
    ensures
        final(out)@ == old(out)@ + ("  >> "@ + m.deep_view().text() + "\n"@),
{
    push_line(out, "  >> ", m.to_string());
}

pub open spec fn messages_text(ms: Seq<MessageView>) -> Seq<char>
    decreases ms.len(),
{
    if ms.len() == 0 {
        Seq::empty()
    } else {
        messages_text(ms.drop_last()) + ("  >> "@ + ms.last().text() + "\n"@)
    }
}

// -------------------------------------------------------------------- monitor

/// The passive frontend: prints what it is asked to, reassembles everything.
pub struct Monitor {
    pub session: Session,
}

impl Monitor {
    pub fn new() -> (r: Monitor)
        ensures
            r.session.deep_view() == Seq::<PartialView>::empty(),
    {
        Monitor { session: Session::new() }
    }

    /// What one packet prints. Hidden packets still reassemble -- only the
    /// printing stops -- so a filter can never break a transaction. Their
    /// completed messages are suppressed with them.
    pub fn packet(&mut self, at: u64, p: &Packet, o: &Output) -> (r: String)
        ensures
            final(self).session.deep_view() == pushed(
                old(self).session.deep_view(),
                at,
                p.deep_view().body,
            ).0,
            r@ == (if o.deep_view().shows(p.deep_view()) {
                packet_block(at, p.deep_view(), o.deep_view()) + messages_text(
                    messages(old(self).session.deep_view(), at, p.deep_view().body),
                )
            } else {
                Seq::empty()
            }),
    {
        let mut out = String::new();
        let show = o.shows(p);
        if show {
            print_packet(&mut out, at, p, o);
        }
        let ms = self.session.push(at, p);
        let ghost mv = ms.deep_view();
        if show {
            let ghost head = out@;
            assert(mv.take(0) =~= Seq::empty());
            assert(head =~= head + messages_text(mv.take(0)));
            let mut i: usize = 0;
            while i < ms.len()
                invariant
                    i <= ms@.len(),
                    mv == ms.deep_view(),
                    mv.len() == ms@.len(),
                    out@ == head + messages_text(mv.take(i as int)),
                decreases ms@.len() - i,
            {
                assert(mv.take(i + 1).drop_last() =~= mv.take(i as int));
                assert(mv.take(i + 1).last() == ms@[i as int].deep_view());
                print_message(&mut out, &ms[i]);
                i = i + 1;
                assert(out@ =~= head + messages_text(mv.take(i as int)));
            }
            assert(mv.take(i as int) =~= mv);
            assert(head =~= packet_block(at, p.deep_view(), o.deep_view()));
        }
        out
    }

    /// Frames were dropped: any gap could have hit any transaction in flight.
    pub fn dropped(&mut self, n: u64) -> (r: String)
        ensures
            final(self).session.deep_view() == Seq::<PartialView>::empty(),
            r@ == "dropped "@ + fmt::dec(n as nat) + " frames (queue full)"@,
    {
        self.session.flush();
        let mut s = fmt::text("dropped ");
        fmt::push_dec(&mut s, n);
        fmt::push_text(&mut s, " frames (queue full)");
        s
    }
}

// ----------------------------------------------------------------------- laws

/// The number two digits of a text make.
pub open spec fn two_digits(t: Seq<char>, i: int) -> int {
    (t[i] as int - 48) * 10 + (t[i + 1] as int - 48)
}

/// Law: a time of day is printed as hours, minutes, seconds and milliseconds,
/// HH:MM:SS.mmm, and they add up to how far into its day the time is.
pub proof fn law_the_time_of_day_is_printed(at: u64)
    ensures
        ({
            let t = timestamp_of(at);
            let h = two_digits(t, 0);
            let m = two_digits(t, 3);
            let s = two_digits(t, 6);
            let ms = two_digits(t, 9) * 10 + (t[11] as int - 48);
            &&& t.len() == 12 && t[2] == ':' && t[5] == ':' && t[8] == '.'
            &&& 0 <= h < 24 && 0 <= m < 60 && 0 <= s < 60 && 0 <= ms < 1000
            &&& ((h * 60 + m) * 60 + s) * 1000 + ms == at % 86_400_000
        }),
{
    reveal_strlit(":");
    reveal_strlit(".");
    let s = at / 1000;
    let h = ((s / 3600) % 24) as nat;
    let m = ((s / 60) % 60) as nat;
    let x = (s % 60) as nat;
    let ms = (at % 1000) as nat;
    lemma_digits(h);
    lemma_digits(m);
    lemma_digits(x);
    lemma_digits(ms);
    assert(((h * 60 + m) * 60 + x) * 1000 + ms == at % 86_400_000) by {
        lemma_time(at as nat);
    }
    let t = timestamp_of(at);
    let hs = zero_padded(h, 2);
    let ws = zero_padded(m, 2);
    let xs = zero_padded(x, 2);
    let zs = zero_padded(ms, 3);
    assert(t[0] == hs[0] && t[1] == hs[1] && t[3] == ws[0] && t[4] == ws[1]);
    assert(t[6] == xs[0] && t[7] == xs[1] && t[9] == zs[0] && t[10] == zs[1] && t[11] == zs[2]);
}

proof fn lemma_time(at: nat)
    ensures
        ({
            let s = at / 1000;
            ((s / 3600 % 24 * 60 + s / 60 % 60) * 60 + s % 60) * 1000 + at % 1000 == at % 86_400_000
        }),
{
}

proof fn lemma_digits(n: nat)
    ensures
        zero_padded(n, 2).len() == 2,
        zero_padded(n, 3).len() == 3,
        n < 100 ==> two_digits(zero_padded(n, 2), 0) == n,
        n < 1000 ==> two_digits(zero_padded(n, 3), 0) * 10 + (zero_padded(n, 3)[2] as int - 48) == n,
{
    reveal_with_fuel(zero_padded, 4);
    assert(zero_padded(n, 2) =~= seq![fmt::digit_char(n / 10 % 10), fmt::digit_char(n % 10)]);
    assert(zero_padded(n, 3) =~= seq![
        fmt::digit_char(n / 10 / 10 % 10),
        fmt::digit_char(n / 10 % 10),
        fmt::digit_char(n % 10),
    ]);
}

proof fn lemma_hexes(b: Seq<u8>, j: int)
    requires
        0 <= j < b.len(),
    ensures
        hexes(b).len() == 3 * b.len(),
        hexes(b)[3 * j] == fmt::digit_char((b[j] / 16) as nat),
        hexes(b)[3 * j + 1] == fmt::digit_char((b[j] % 16) as nat),
        hexes(b)[3 * j + 2] == ' ',
    decreases b.len(),
{
    reveal_strlit(" ");
    reveal_with_fuel(fmt::hex, 3);
    let a = b.drop_last();
    if a.len() == 0 {
        assert(hexes(a) =~= Seq::<char>::empty());
    } else {
        lemma_hexes(
            a,
            if j < a.len() {
                j
            } else {
                0
            },
        );
    }
    let x = b.last() as nat;
    assert(fmt::hex(x, 2) =~= seq![fmt::digit_char(x / 16 % 16), fmt::digit_char(x % 16)]);
    assert(hexes(b) =~= hexes(a) + fmt::hex(x, 2) + " "@);
}

/// Law: in a dump of up to 64 KiB byte `k` stands in line `k / 16`, which begins
/// with its offset in four hexadecimal digits: as two such digits at its place
/// among sixteen, and between the bars as a character, or a dot where it is not
/// printable.
pub proof fn law_a_dump_shows_every_byte(b: Seq<u8>, k: int)
    requires
        0 <= k < b.len() <= 0x10000,
    ensures
        ({
            let t = row_text(b, (k / 16) as nat);
            let j = k % 16;
            let first = 16 * (k / 16);
            &&& t[2] == fmt::digit_char((first / 4096) as nat)
            &&& t[3] == fmt::digit_char((first / 256 % 16) as nat)
            &&& t[4] == fmt::digit_char((first / 16 % 16) as nat) && t[5] == '0'
            &&& t[8 + 3 * j] == fmt::digit_char((b[k] / 16) as nat)
            &&& t[9 + 3 * j] == fmt::digit_char((b[k] % 16) as nat)
            &&& t[56] == '|' && t[57 + j] == (if 0x20 <= b[k] <= 0x7e {
                b[k] as char
            } else {
                '.'
            })
            &&& t.last() == '\n'
            &&& exists|x: Seq<char>, y: Seq<char>| dump_text(b) == #[trigger] (x + t + y)
        }),
{
    reveal_strlit("  ");
    reveal_strlit("|");
    reveal_strlit("|\n");
    reveal_with_fuel(fmt::hex, 5);
    let i = (k / 16) as nat;
    let j = k % 16;
    let r = row(b, i);
    assert(r.len() <= 16 && r[j] == b[k]);
    lemma_hexes(r, j);
    let t = row_text(b, i);
    let h = fmt::pad_right(hexes(r), 48);
    let o = offset_text(16 * i);
    assert(o.len() == 4 && h.len() == 48);
    assert(h[3 * j] == hexes(r)[3 * j] && h[3 * j + 1] == hexes(r)[3 * j + 1]);
    assert(t.len() == 59 + r.len());
    assert(t[2] == o[0] && t[3] == o[1] && t[4] == o[2] && t[5] == o[3]);
    assert(t[8 + 3 * j] == h[3 * j] && t[9 + 3 * j] == h[3 * j + 1]);
    assert(t[57 + j] == wire::name_text(r)[j]);
    lemma_rows(b, i, ((b.len() + 15) / 16) as nat);
}

/// Law: every completed message gets a line of its own.
pub proof fn law_every_message_is_printed(ms: Seq<MessageView>, i: int)
    requires
        0 <= i < ms.len(),
    ensures
        exists|x: Seq<char>, y: Seq<char>|
            messages_text(ms) == #[trigger] (x + ("  >> "@ + ms[i].text() + "\n"@) + y),
    decreases ms.len(),
{
    let line = "  >> "@ + ms[i].text() + "\n"@;
    let a = ms.drop_last();
    if i < a.len() {
        law_every_message_is_printed(a, i);
        let (x, y) = choose|x: Seq<char>, y: Seq<char>|
            messages_text(a) == #[trigger] (x + line + y);
        let last = "  >> "@ + ms.last().text() + "\n"@;
        assert(messages_text(ms) =~= x + line + (y + last));
    } else {
        assert(messages_text(ms) =~= messages_text(a) + line + Seq::<char>::empty());
    }
}

proof fn lemma_rows(b: Seq<u8>, i: nat, n: nat)
    requires
        i < n,
    ensures
        exists|x: Seq<char>, y: Seq<char>| rows_text(b, n) == #[trigger] (x + row_text(b, i) + y),
    decreases n,
{
    let m = (n - 1) as nat;
    if i == m {
        assert(rows_text(b, n) =~= rows_text(b, m) + row_text(b, i) + Seq::<char>::empty());
    } else {
        lemma_rows(b, i, m);
        let (x, y) = choose|x: Seq<char>, y: Seq<char>|
            rows_text(b, m) == #[trigger] (x + row_text(b, i) + y);
        assert(rows_text(b, n) =~= x + row_text(b, i) + (y + row_text(b, m)));
    }
}

/// Law: each flag takes away or adds its own lines and leaves the others:
/// without the link line a block is what followed it, without the net line a
/// datagram's block lacks that line alone, and dumps only add to a block.
pub proof fn law_flags_work_on_their_own_lines(at: u64, p: PacketView, o: OutputView)
    ensures
        ({
            let link = timestamp_of(at) + " "@ + p.frame.text() + "\n"@;
            packet_block(at, p, OutputView { no_link: false, ..o }) == link + packet_block(
                at,
                p,
                OutputView { no_link: true, ..o },
            )
        }),
        p.body matches BodyView::Ddp(d, _) ==> packet_block(
            at,
            p,
            OutputView { no_link: true, no_net: false, ..o },
        ) == "  "@ + d.text() + "\n"@ + packet_block(
            at,
            p,
            OutputView { no_link: true, no_net: true, ..o },
        ),
        !(p.body is Ddp) ==> packet_block(at, p, OutputView { no_net: true, ..o }) == packet_block(
            at,
            p,
            OutputView { no_net: false, ..o },
        ),
        ({
            let short = packet_block(at, p, OutputView { hex: false, ..o });
            let dump = match p.body {
                BodyView::Unknown => dump_text(p.frame.payload),
                BodyView::Ddp(d, DdpBodyView::Unknown) => dump_text(d.data),
                BodyView::Ddp(_, DdpBodyView::Atp(a)) => dump_text(a.data),
                BodyView::Ddp(_, DdpBodyView::Aep(a)) => dump_text(a.data),
                _ => Seq::empty(),
            };
            packet_block(at, p, OutputView { hex: true, ..o }) == short + dump
        }),
{
    lemma_line(timestamp_of(at), " "@, p.frame.text(), "\n"@, inner_text(p, o));
    lemma_line(
        timestamp_of(at),
        " "@,
        p.frame.text(),
        "\n"@,
        inner_text(p, OutputView { no_link: true, ..o }),
    );
    let link = link_text(at, p.frame, o);
    if let BodyView::Ddp(d, b) = p.body {
        let net = net_text(d, o);
        lemma_line(Seq::empty(), "  "@, d.text(), "\n"@, body_text(d.data, b, o.hex));
        lemma_dumps(link + net, d.data, b);
        assert(link + (net + body_text(d.data, b, true)) =~= link + net + body_text(d.data, b, true));
        assert(link + (net + body_text(d.data, b, false)) =~= link + net + body_text(
            d.data,
            b,
            false,
        ));
    } else {
        let short = packet_block(at, p, OutputView { hex: false, ..o });
        assert(short =~= short + Seq::<char>::empty());
        assert(link + dump_text(p.frame.payload) =~= link + Seq::<char>::empty() + dump_text(
            p.frame.payload,
        ));
    }
}

proof fn lemma_line(
    t: Seq<char>,
    indent: Seq<char>,
    line: Seq<char>,
    end: Seq<char>,
    rest: Seq<char>,
)
    ensures
        t + (indent + line + end) + rest == t + indent + line + end + rest,
        Seq::<char>::empty() + rest == rest,
        Seq::<char>::empty() + (indent + line + end + rest) == indent + line + end + rest,
{
    assert(t + (indent + line + end) + rest =~= t + indent + line + end + rest);
    assert(Seq::<char>::empty() + rest =~= rest);
    assert(Seq::<char>::empty() + (indent + line + end + rest) =~= indent + line + end + rest);
}

proof fn lemma_dumps(head: Seq<char>, data: Seq<u8>, b: DdpBodyView)
    ensures
        head + body_text(data, b, true) == head + body_text(data, b, false) + (match b {
            DdpBodyView::Unknown => dump_text(data),
            DdpBodyView::Atp(a) => dump_text(a.data),
            DdpBodyView::Aep(a) => dump_text(a.data),
            _ => Seq::empty(),
        }),
{
    match b {
        DdpBodyView::Unknown => assert(head + dump_text(data) =~= head + Seq::<char>::empty()
            + dump_text(data)),
        DdpBodyView::Atp(a) => lemma_joins(head, "    "@ + a.text() + "\n"@, dump_text(a.data)),
        DdpBodyView::Aep(a) => lemma_joins(head, "    "@ + a.text() + "\n"@, dump_text(a.data)),
        _ => assert(head + body_text(data, b, false) =~= head + body_text(data, b, false)
            + Seq::<char>::empty()),
    }
}

proof fn lemma_joins(head: Seq<char>, line: Seq<char>, dump: Seq<char>)
    ensures
        head + (line + dump) == head + (line + Seq::<char>::empty()) + dump,
{
    assert(head + (line + dump) =~= head + (line + Seq::<char>::empty()) + dump);
}

} // verus!
