//! AURP: the AppleTalk Update-Based Routing Protocol tunnelled over UDP 387.

use vstd::prelude::*;
use vstd::slice::*;

use crate::fmt;
use crate::wire;
use crate::wire::ddp;
use crate::wire::rtmp;
use crate::wire::rtmp::NetworkTuple;
use crate::wire::zip;
use crate::wire::{low16, pstring, push16, push_bytes, put_pstring, read16, to_signed, to_unsigned, Encode, Ipv4Addr};

verus! {

/// A domain identifier: the four-byte IP form, or the null form.
#[derive(Debug, Clone, Copy, PartialEq, Eq, Structural)]
pub enum Di {
    Null,
    Ip(Ipv4Addr),
}

#[derive(Debug, Clone, Copy, PartialEq, Eq, Structural)]
pub struct DomainHeader {
    pub dst: Di,
    pub src: Di,
}

/// code 0 = null: tuple ignored
#[derive(Debug, Clone, Copy, PartialEq, Eq)]
pub struct EventTuple {
    pub code: u8,
    pub tuple: NetworkTuple,
}

#[derive(Debug, PartialEq, Eq)]
#[allow(inconsistent_fields)]
pub enum Cmd {
    RiReq { sui: u16 },
    RiRsp { last: bool, tuples: Vec<NetworkTuple> },
    RiAck { szi: bool },
    RiUpd { events: Vec<EventTuple> },
    Rd { code: i16 },
    ZiReq { nets: Vec<u16> },
    /// `extended` is Some(total tuples in the whole list) for subcode 2, None
    /// for subcode 1.
    ZiRsp { extended: Option<u16>, zones: Vec<(u16, String)> },
    GznReq { zone: String },
    /// `tuples` None = not supported (count -1).
    GznRsp { zone: String, tuples: Option<Vec<NetworkTuple>> },
    GdzlReq { start: u16 },
    /// `start` -1 = not supported. Zone names are length-prefixed.
    GdzlRsp { last: bool, start: i16, zones: Vec<String> },
    OpenReq { sui: u16, version: u16, options: Vec<(u8, Vec<u8>)> },
    OpenRsp { env: u16, rate_or_err: i16, options: Vec<(u8, Vec<u8>)> },
    Tickle,
    TickleAck,
}

/// What a command says.
#[allow(inconsistent_fields)]
pub enum CmdView {
    RiReq { sui: u16 },
    RiRsp { last: bool, tuples: Seq<NetworkTuple> },
    RiAck { szi: bool },
    RiUpd { events: Seq<EventTuple> },
    Rd { code: i16 },
    ZiReq { nets: Seq<u16> },
    ZiRsp { extended: Option<u16>, zones: Seq<(u16, Seq<char>)> },
    GznReq { zone: Seq<char> },
    GznRsp { zone: Seq<char>, tuples: Option<Seq<NetworkTuple>> },
    GdzlReq { start: u16 },
    GdzlRsp { last: bool, start: i16, zones: Seq<Seq<char>> },
    OpenReq { sui: u16, version: u16, options: Seq<(u8, Seq<u8>)> },
    OpenRsp { env: u16, rate_or_err: i16, options: Seq<(u8, Seq<u8>)> },
    Tickle,
    TickleAck,
}

#[derive(Debug, PartialEq, Eq)]
pub enum Aurp {
    Data { dh: DomainHeader, ddp: Vec<u8> },
    Routing { dh: DomainHeader, conn: u16, seq: u16, cmd: Cmd },
}

/// What a packet on the tunnel says.
pub enum AurpView {
    Data { dh: DomainHeader, ddp: Seq<u8> },
    Routing { dh: DomainHeader, conn: u16, seq: u16, cmd: CmdView },
}

/// The only version of the domain header, and of AURP itself.
pub const VERSION: u16 = 1;

pub const TYPE_DATA: u16 = 2;

pub const TYPE_ROUTING: u16 = 3;

/// The placeholder in a null event, which is one byte and carries no tuple.
pub open spec fn no_tuple() -> NetworkTuple {
    NetworkTuple { range: (0, 0), extended: false, distance: 0 }
}

/// Where an optimized zone tuple's offset is measured from: the length byte of
/// the first zone name in the body, which follows the subcode, the count and
/// that first tuple's network number. The first name is always spelled out.
pub const ZONE_BASE: usize = 6;

// -------------------------------------------------------------------- flags

/// The four "send update information" bits of a flags word (`0x7800`).
pub open spec fn sui_bits(flags: u16) -> u16 {
    (((flags / 0x800) % 16) * 0x800) as u16
}

/// The environment bits of an Open-Rsp: remapping active, hop-count reduction
/// on (`0x6000`). The rest of that field is reserved.
pub open spec fn env_bits(flags: u16) -> u16 {
    (((flags / 0x2000) % 4) * 0x2000) as u16
}

/// "Also send the zones of the networks just acked" (`0x4000`).
pub open spec fn szi_bit(flags: u16) -> bool {
    (flags / 0x4000) % 2 == 1
}

/// "Last packet of a sequence" (`0x8000`).
pub open spec fn last_bit(flags: u16) -> bool {
    flags >= 0x8000
}

// ------------------------------------------------------------------- events

impl EventTuple {
    /// An event tuple is a network tuple behind an event code, with one
    /// difference that matters: the extended form is six bytes with **no**
    /// trailing zero. The null event (code 0) is a single byte.
    pub open spec fn spec_parse(p: Seq<u8>) -> Option<(EventTuple, Seq<u8>)> {
        if p.len() == 0 {
            None
        } else if p[0] == 0 {
            Some((EventTuple { code: 0, tuple: no_tuple() }, p.skip(1)))
        } else if p.len() < 4 {
            None
        } else if p[3] < 0x80 {
            let start = wire::u16_at(p, 1);
            Some(
                (
                    EventTuple {
                        code: p[0],
                        tuple: NetworkTuple {
                            range: (start, start),
                            extended: false,
                            distance: p[3],
                        },
                    },
                    p.skip(4),
                ),
            )
        } else if p.len() < 6 {
            None
        } else {
            Some(
                (
                    EventTuple {
                        code: p[0],
                        tuple: NetworkTuple {
                            range: (wire::u16_at(p, 1), wire::u16_at(p, 4)),
                            extended: true,
                            distance: (p[3] - 0x80) as u8,
                        },
                    },
                    p.skip(6),
                ),
            )
        }
    }

    pub open spec fn bytes(self) -> Seq<u8> {
        if self.code == 0 {
            seq![0u8]
        } else if self.tuple.extended {
            seq![self.code] + wire::be16(self.tuple.range.0) + seq![
                (0x80 + self.tuple.distance % 0x80) as u8,
            ] + wire::be16(self.tuple.range.1)
        } else {
            seq![self.code] + wire::be16(self.tuple.range.0) + seq![self.tuple.distance % 0x80]
        }
    }

    /// An event the wire can hold.
    pub open spec fn valid(self) -> bool {
        if self.code == 0 {
            self.tuple == no_tuple()
        } else {
            self.tuple.valid()
        }
    }
}

/// A run of events with nothing after it.
pub open spec fn events_of(p: Seq<u8>) -> Option<Seq<EventTuple>>
    decreases p.len(),
{
    if p.len() == 0 {
        Some(Seq::empty())
    } else {
        match EventTuple::spec_parse(p) {
            None => None,
            Some((e, rest)) => match events_of(rest) {
                None => None,
                Some(es) => Some(seq![e] + es),
            },
        }
    }
}

/// Events back to back.
pub open spec fn events_bytes(es: Seq<EventTuple>) -> Seq<u8>
    decreases es.len(),
{
    if es.len() == 0 {
        Seq::empty()
    } else {
        events_bytes(es.drop_last()) + es.last().bytes()
    }
}

// ------------------------------------------------------------------ options

/// The view of a list of options.
pub open spec fn options_view(o: Seq<(u8, Vec<u8>)>) -> Seq<(u8, Seq<u8>)> {
    Seq::new(o.len(), |i: int| (o[i].0, o[i].1@))
}

/// Exactly `n` options with nothing after them. An option's length counts its
/// type byte and its data, so it is never 0.
pub open spec fn options_of(p: Seq<u8>, n: nat) -> Option<Seq<(u8, Seq<u8>)>>
    decreases n,
{
    if n == 0 {
        if p.len() == 0 {
            Some(Seq::empty())
        } else {
            None
        }
    } else if p.len() == 0 || p[0] == 0 || p.len() < 1 + p[0] {
        None
    } else {
        match options_of(p.skip(1 + p[0]), (n - 1) as nat) {
            None => None,
            Some(os) => Some(seq![(p[1], p.subrange(2, 1 + p[0]))] + os),
        }
    }
}

/// Options back to back.
pub open spec fn options_bytes(os: Seq<(u8, Seq<u8>)>) -> Seq<u8>
    decreases os.len(),
{
    if os.len() == 0 {
        Seq::empty()
    } else {
        options_bytes(os.drop_last()) + seq![((1 + os.last().1.len()) % 256) as u8, os.last().0]
            + os.last().1
    }
}

/// A count byte and the options.
pub open spec fn option_list(os: Seq<(u8, Seq<u8>)>) -> Seq<u8> {
    seq![(os.len() % 256) as u8] + options_bytes(os)
}

/// At most 255 options, each of at most 254 bytes of data.
pub open spec fn options_valid(os: Seq<(u8, Seq<u8>)>) -> bool {
    &&& os.len() <= 255
    &&& forall|i: int| 0 <= i < os.len() ==> (#[trigger] os[i]).1.len() <= 254
}

// -------------------------------------------------------------- zone tuples

/// The name whose length byte is at `i`; another offset there is no name.
pub open spec fn name_at(b: Seq<u8>, i: int) -> Option<Seq<char>> {
    if i >= b.len() || b[i] >= 0x80 {
        None
    } else {
        match wire::pstring_of(b.skip(i)) {
            None => None,
            Some((name, _)) => Some(name),
        }
    }
}

/// The zone tuples that fill `rest`, the end of the body `b`. A long tuple
/// spells its name out; an optimized one holds the offset of a name spelled
/// out in the same packet, counted from the first name's length byte.
pub open spec fn zone_tuples(b: Seq<u8>, rest: Seq<u8>) -> Option<Seq<(u16, Seq<char>)>>
    decreases rest.len(),
{
    if rest.len() == 0 {
        Some(Seq::empty())
    } else if rest.len() < 3 {
        None
    } else if rest[2] < 0x80 {
        match wire::pstring_of(rest.skip(2)) {
            None => None,
            Some((name, tail)) => match zone_tuples(b, tail) {
                None => None,
                Some(zs) => Some(seq![(wire::u16_at(rest, 0), name)] + zs),
            },
        }
    } else if rest.len() < 4 {
        None
    } else {
        match name_at(b, ZONE_BASE + wire::u16_of((rest[2] - 0x80) as u8, rest[3])) {
            None => None,
            Some(name) => match zone_tuples(b, rest.skip(4)) {
                None => None,
                Some(zs) => Some(seq![(wire::u16_at(rest, 0), name)] + zs),
            },
        }
    }
}

/// Whether `name` stands in `zs`, so that it is spelled out already.
pub open spec fn named(zs: Seq<(u16, Seq<char>)>, name: Seq<char>) -> bool {
    exists|i: int| 0 <= i < zs.len() && (#[trigger] zs[i]).1 == name
}

/// The first place of `name` in `zs`.
pub open spec fn first_named(zs: Seq<(u16, Seq<char>)>, name: Seq<char>) -> int
    decreases zs.len(),
{
    if zs.len() == 0 {
        0
    } else if named(zs.drop_last(), name) {
        first_named(zs.drop_last(), name)
    } else {
        zs.len() - 1
    }
}

/// Zone tuples as they travel: the first tuple with a name spells it out, and
/// every later one with the same name points back at it. The offset of a name
/// is the number of bytes before its tuple.
pub open spec fn zone_bytes(zs: Seq<(u16, Seq<char>)>) -> Seq<u8>
    decreases zs.len(), 0nat,
{
    if zs.len() == 0 {
        Seq::empty()
    } else {
        zone_bytes(zs.drop_last()) + wire::be16(zs.last().0) + zone_ref(
            zs.drop_last(),
            zs.last().1,
        )
    }
}

/// A name after the tuples `zs`: spelled out, or an offset to its first place.
pub open spec fn zone_ref(zs: Seq<(u16, Seq<char>)>, name: Seq<char>) -> Seq<u8>
    decreases zs.len(), 1nat,
{
    if named(zs, name) {
        let k = first_named(zs, name);
        let off = if 0 <= k < zs.len() {
            zone_bytes(zs.take(k)).len()
        } else {
            0
        };
        wire::be16((0x8000 + off % 0x8000) as u16)
    } else {
        wire::pname(name)
    }
}

// ----------------------------------------------------------------- commands

impl CmdView {
    /// The command code. Subcodes live in the body.
    pub open spec fn code(self) -> u16 {
        match self {
            CmdView::RiReq { .. } => 1,
            CmdView::RiRsp { .. } => 2,
            CmdView::RiAck { .. } => 3,
            CmdView::RiUpd { .. } => 4,
            CmdView::Rd { .. } => 5,
            CmdView::ZiReq { .. } => 6,
            CmdView::GznReq { .. } => 6,
            CmdView::GdzlReq { .. } => 6,
            CmdView::ZiRsp { .. } => 7,
            CmdView::GznRsp { .. } => 7,
            CmdView::GdzlRsp { .. } => 7,
            CmdView::OpenReq { .. } => 8,
            CmdView::OpenRsp { .. } => 9,
            CmdView::Tickle => 14,
            CmdView::TickleAck => 15,
        }
    }

    /// The flags word. Everything not listed here is reserved and written 0.
    pub open spec fn flags(self) -> u16 {
        match self {
            CmdView::RiReq { sui } => sui_bits(sui),
            CmdView::OpenReq { sui, .. } => sui_bits(sui),
            CmdView::RiRsp { last, .. } => if last {
                0x8000
            } else {
                0
            },
            CmdView::GdzlRsp { last, .. } => if last {
                0x8000
            } else {
                0
            },
            CmdView::RiAck { szi } => if szi {
                0x4000
            } else {
                0
            },
            CmdView::OpenRsp { env, .. } => env_bits(env),
            _ => 0,
        }
    }

    /// The body after the routing header, subcode included.
    pub open spec fn body(self) -> Seq<u8> {
        match self {
            CmdView::RiRsp { tuples, .. } => rtmp::tuples_bytes(tuples, 0),
            CmdView::RiUpd { events } => events_bytes(events),
            CmdView::Rd { code } => wire::be16(wire::unsigned(code)),
            CmdView::ZiReq { nets } => wire::be16(1) + zip::numbers_bytes(nets),
            CmdView::ZiRsp { extended, zones } => (match extended {
                Some(total) => wire::be16(2) + wire::be16(total),
                None => wire::be16(1) + wire::be16((zones.len() % 0x10000) as u16),
            }) + zone_bytes(zones),
            CmdView::GznReq { zone } => wire::be16(3) + wire::pname(zone),
            CmdView::GznRsp { zone, tuples } => wire::be16(3) + wire::pname(zone) + (match tuples {
                None => wire::be16(0xffff),
                Some(ts) => wire::be16((ts.len() % 0x10000) as u16) + rtmp::tuples_bytes(ts, 0),
            }),
            CmdView::GdzlReq { start } => wire::be16(4) + wire::be16(start),
            CmdView::GdzlRsp { start, zones, .. } => wire::be16(4) + wire::be16(
                wire::unsigned(start),
            ) + names_bytes(zones),
            CmdView::OpenReq { version, options, .. } => wire::be16(version) + option_list(options),
            CmdView::OpenRsp { rate_or_err, options, .. } => wire::be16(wire::unsigned(rate_or_err))
                + option_list(options),
            _ => Seq::empty(),
        }
    }

    pub open spec fn parse(code: u16, flags: u16, b: Seq<u8>) -> Option<CmdView> {
        if code == 1 && b.len() == 0 {
            Some(CmdView::RiReq { sui: sui_bits(flags) })
        } else if code == 2 {
            match rtmp::tuples_of(b) {
                None => None,
                Some(tuples) => Some(CmdView::RiRsp { last: last_bit(flags), tuples }),
            }
        } else if code == 3 && b.len() == 0 {
            Some(CmdView::RiAck { szi: szi_bit(flags) })
        } else if code == 4 {
            match events_of(b) {
                None => None,
                Some(events) => Some(CmdView::RiUpd { events }),
            }
        } else if code == 5 && b.len() == 2 {
            Some(CmdView::Rd { code: wire::signed(wire::u16_at(b, 0)) })
        } else if code == 6 || code == 7 {
            Self::parse_sub(code, flags, b)
        } else if code == 8 && b.len() >= 3 {
            match options_of(b.skip(3), b[2] as nat) {
                None => None,
                Some(options) => Some(
                    CmdView::OpenReq {
                        sui: sui_bits(flags),
                        version: wire::u16_at(b, 0),
                        options,
                    },
                ),
            }
        } else if code == 9 && b.len() >= 3 {
            match options_of(b.skip(3), b[2] as nat) {
                None => None,
                Some(options) => Some(
                    CmdView::OpenRsp {
                        env: env_bits(flags),
                        rate_or_err: wire::signed(wire::u16_at(b, 0)),
                        options,
                    },
                ),
            }
        } else if code == 14 && b.len() == 0 {
            Some(CmdView::Tickle)
        } else if code == 15 && b.len() == 0 {
            Some(CmdView::TickleAck)
        } else {
            None  // 10-13 and above 15 are undefined

        }
    }

    /// Commands 6 and 7 carry a two-byte subcode as the first field of the
    /// body.
    pub open spec fn parse_sub(code: u16, flags: u16, b: Seq<u8>) -> Option<CmdView> {
        if b.len() < 2 {
            None
        } else {
            let sub = wire::u16_at(b, 0);
            let rest = b.skip(2);
            if code == 6 && sub == 1 {
                if rest.len() % 2 != 0 {
                    None
                } else {
                    Some(CmdView::ZiReq { nets: zip::numbers_of(rest) })
                }
            } else if code == 7 && (sub == 1 || sub == 2) {
                Self::parse_zi_rsp(sub, b)
            } else if code == 6 && sub == 3 {
                match wire::pstring_of(rest) {
                    Some((zone, tail)) => if tail.len() == 0 {
                        Some(CmdView::GznReq { zone })
                    } else {
                        None
                    },
                    None => None,
                }
            } else if code == 7 && sub == 3 {
                Self::parse_gzn_rsp(rest)
            } else if code == 6 && sub == 4 {
                if rest.len() == 2 {
                    Some(CmdView::GdzlReq { start: wire::u16_at(rest, 0) })
                } else {
                    None
                }
            } else if code == 7 && sub == 4 {
                if rest.len() < 2 {
                    None
                } else {
                    match all_names(rest.skip(2)) {
                        None => None,
                        Some(zones) => Some(
                            CmdView::GdzlRsp {
                                last: last_bit(flags),
                                start: wire::signed(wire::u16_at(rest, 0)),
                                zones,
                            },
                        ),
                    }
                }
            } else {
                None
            }
        }
    }

    /// The count is the whole list's on subcode 2 and cannot be recomputed;
    /// every tuple present is processed regardless of it either way.
    pub open spec fn parse_zi_rsp(sub: u16, b: Seq<u8>) -> Option<CmdView> {
        if b.len() < 4 {
            None
        } else {
            match zone_tuples(b, b.skip(4)) {
                None => None,
                Some(zones) => Some(
                    CmdView::ZiRsp {
                        extended: if sub == 2 {
                            Some(wire::u16_at(b, 2))
                        } else {
                            None
                        },
                        zones,
                    },
                ),
            }
        }
    }

    /// A zone, a count, and that many tuples with nothing after them; a count
    /// of -1 is "not supported", and no other negative one is a count.
    pub open spec fn parse_gzn_rsp(rest: Seq<u8>) -> Option<CmdView> {
        match wire::pstring_of(rest) {
            None => None,
            Some((zone, tail)) => if tail.len() < 2 {
                None
            } else {
                let count = wire::u16_at(tail, 0);
                if count >= 0x8000 {
                    if count == 0xffff && tail.len() == 2 {
                        Some(CmdView::GznRsp { zone, tuples: None })
                    } else {
                        None
                    }
                } else {
                    match rtmp::tuples_of(tail.skip(2)) {
                        Some(tuples) => if tuples.len() == count {
                            Some(CmdView::GznRsp { zone, tuples: Some(tuples) })
                        } else {
                            None
                        },
                        None => None,
                    }
                }
            },
        }
    }

    /// A command that travels unchanged.
    pub open spec fn valid(self) -> bool {
        match self {
            CmdView::RiReq { sui } => sui_bits(sui) == sui,
            CmdView::RiRsp { tuples, .. } => rtmp::tuples_valid(tuples),
            CmdView::RiUpd { events } => forall|i: int|
                0 <= i < events.len() ==> (#[trigger] events[i]).valid(),
            CmdView::ZiRsp { zones, .. } => {
                &&& forall|i: int| 0 <= i < zones.len() ==> wire::name_ok((#[trigger] zones[i]).1)
                &&& zone_bytes(zones).len() < 0x8000
            },
            CmdView::GznReq { zone } => wire::name_ok(zone),
            CmdView::GznRsp { zone, tuples } => {
                &&& wire::name_ok(zone)
                &&& (tuples matches Some(ts) ==> rtmp::tuples_valid(ts) && ts.len() < 0x8000)
            },
            CmdView::GdzlRsp { zones, .. } => forall|i: int|
                0 <= i < zones.len() ==> wire::name_ok(#[trigger] zones[i]),
            CmdView::OpenReq { sui, options, .. } => sui_bits(sui) == sui && options_valid(options),
            CmdView::OpenRsp { env, options, .. } => env_bits(env) == env && options_valid(options),
            _ => true,
        }
    }

    /// A transaction carries no sequence number; the others are numbered data
    /// or acknowledge a number.
    pub open spec fn transaction(self) -> bool {
        !(self is RiRsp || self is RiUpd || self is Rd || self is RiAck)
    }

    pub open spec fn text(self) -> Seq<char> {
        match self {
            CmdView::RiReq { .. } => "ri-req"@,
            CmdView::RiRsp { last, tuples } => "ri-rsp"@ + (if last {
                " last"@
            } else {
                ""@
            }) + " "@ + fmt::dec(tuples.len()) + " nets"@,
            CmdView::RiAck { szi } => "ri-ack"@ + (if szi {
                " szi"@
            } else {
                ""@
            }),
            CmdView::RiUpd { events } => "ri-upd "@ + fmt::dec(events.len()) + " events"@,
            CmdView::Rd { code } => "rd "@ + fmt::signed_dec(code),
            CmdView::ZiReq { nets } => "zi-req"@ + spaced(nets),
            CmdView::ZiRsp { zones, .. } => "zi-rsp "@ + fmt::dec(zones.len()) + " zones"@,
            CmdView::GznReq { zone } => "gzn-req \""@ + zone + "\""@,
            CmdView::GznRsp { .. } => "gzn-rsp"@,
            CmdView::GdzlReq { start } => "gdzl-req "@ + fmt::dec(start as nat),
            CmdView::GdzlRsp { .. } => "gdzl-rsp"@,
            CmdView::OpenReq { sui, version, .. } => "open-req sui "@ + fmt::hex(sui as nat, 4)
                + " v"@ + fmt::dec(version as nat),
            CmdView::OpenRsp { rate_or_err, .. } => (if rate_or_err < 0 {
                "open-rsp error "@
            } else {
                "open-rsp rate "@
            }) + fmt::signed_dec(rate_or_err),
            CmdView::Tickle => "tickle"@,
            CmdView::TickleAck => "tickle-ack"@,
        }
    }
}

/// Numbers for printing, a space before each.
pub open spec fn spaced(ns: Seq<u16>) -> Seq<char>
    decreases ns.len(),
{
    if ns.len() == 0 {
        Seq::empty()
    } else {
        spaced(ns.drop_last()) + " "@ + fmt::dec(ns.last() as nat)
    }
}

/// Names until nothing is left.
pub open spec fn all_names(p: Seq<u8>) -> Option<Seq<Seq<char>>>
    decreases p.len(),
{
    if p.len() == 0 {
        Some(Seq::empty())
    } else {
        match wire::pstring_of(p) {
            None => None,
            Some((name, rest)) => match all_names(rest) {
                None => None,
                Some(ns) => Some(seq![name] + ns),
            },
        }
    }
}

/// Names back to back.
pub open spec fn names_bytes(ns: Seq<Seq<char>>) -> Seq<u8>
    decreases ns.len(),
{
    if ns.len() == 0 {
        Seq::empty()
    } else {
        names_bytes(ns.drop_last()) + wire::pname(ns.last())
    }
}

// ------------------------------------------------------------------ packets

impl Di {
    /// A domain identifier: a length byte, an authority byte, then the
    /// authority's own bytes. The length counts everything after itself and is
    /// always odd, so the whole DI is an even number of bytes.
    pub open spec fn spec_parse(p: Seq<u8>) -> Option<(Di, Seq<u8>)> {
        if p.len() >= 2 && p[1] == 0 && p[0] == 1 {
            Some((Di::Null, p.skip(2)))
        } else if p.len() >= 8 && p[1] == 1 && p[0] == 7 {
            // Two reserved bytes, then the address. They are ignored on
            // receive.
            Some((Di::Ip(Ipv4Addr(p[4], p[5], p[6], p[7])), p.skip(8)))
        } else {
            None
        }
    }

    pub open spec fn bytes(self) -> Seq<u8> {
        match self {
            Di::Null => seq![0x01u8, 0x00],
            Di::Ip(a) => seq![0x07u8, 0x01, 0x00, 0x00] + a.bytes(),
        }
    }

    pub open spec fn text(self) -> Seq<char> {
        match self {
            Di::Null => "null"@,
            Di::Ip(a) => a.text(),
        }
    }
}

/// One whole DDP datagram with the 13-byte extended header: its ten-bit
/// length is the number of its bytes.
pub open spec fn one_datagram(b: Seq<u8>) -> bool {
    b.len() >= 13 && ddp::DdpView::parse(b)->0.length == b.len()
}

impl AurpView {
    pub open spec fn parse(p: Seq<u8>) -> Option<AurpView> {
        match Di::spec_parse(p) {
            None => None,
            Some((dst, r1)) => match Di::spec_parse(r1) {
                None => None,
                Some((src, r2)) => if r2.len() < 6 || wire::u16_at(r2, 0) != VERSION {
                    None
                } else {
                    // The two bytes after the version are reserved and ignored.
                    Self::parse_body(DomainHeader { dst, src }, wire::u16_at(r2, 4), r2.skip(6))
                },
            },
        }
    }

    pub open spec fn parse_body(dh: DomainHeader, typ: u16, body: Seq<u8>) -> Option<AurpView> {
        if typ == TYPE_DATA {
            if one_datagram(body) {
                Some(AurpView::Data { dh, ddp: body })
            } else {
                None
            }
        } else if typ == TYPE_ROUTING && body.len() >= 8 {
            match CmdView::parse(wire::u16_at(body, 4), wire::u16_at(body, 6), body.skip(8)) {
                None => None,
                Some(cmd) => Some(
                    AurpView::Routing {
                        dh,
                        conn: wire::u16_at(body, 0),
                        seq: wire::u16_at(body, 2),
                        cmd,
                    },
                ),
            }
        } else {
            None
        }
    }

    pub open spec fn header(self) -> DomainHeader {
        match self {
            AurpView::Data { dh, .. } => dh,
            AurpView::Routing { dh, .. } => dh,
        }
    }

    pub open spec fn bytes(self) -> Seq<u8> {
        self.header().dst.bytes() + self.header().src.bytes() + wire::be16(VERSION) + seq![0u8, 0]
            + (match self {
            AurpView::Data { ddp, .. } => wire::be16(TYPE_DATA) + ddp,
            AurpView::Routing { conn, seq, cmd, .. } => wire::be16(TYPE_ROUTING) + wire::be16(conn)
                + wire::be16(seq) + wire::be16(cmd.code()) + wire::be16(cmd.flags()) + cmd.body(),
        })
    }

    pub open spec fn valid(self) -> bool {
        match self {
            AurpView::Data { ddp, .. } => one_datagram(ddp),
            AurpView::Routing { cmd, .. } => cmd.valid(),
        }
    }

    pub open spec fn text(self) -> Seq<char> {
        match self {
            AurpView::Data { dh, ddp } => "aurp-data "@ + dh.src.text() + " > "@ + dh.dst.text()
                + " "@ + fmt::dec(ddp.len()) + " bytes"@,
            AurpView::Routing { dh, conn, seq, cmd } => "aurp "@ + dh.src.text() + " > "@
                + dh.dst.text() + " conn "@ + fmt::dec(conn as nat) + " seq "@ + fmt::dec(
                seq as nat,
            ) + " "@ + cmd.text(),
        }
    }
}

impl DeepView for Cmd {
    type V = CmdView;

    open spec fn deep_view(&self) -> CmdView {
        match self {
            Cmd::RiReq { sui } => CmdView::RiReq { sui: *sui },
            Cmd::RiRsp { last, tuples } => CmdView::RiRsp { last: *last, tuples: tuples@ },
            Cmd::RiAck { szi } => CmdView::RiAck { szi: *szi },
            Cmd::RiUpd { events } => CmdView::RiUpd { events: events@ },
            Cmd::Rd { code } => CmdView::Rd { code: *code },
            Cmd::ZiReq { nets } => CmdView::ZiReq { nets: nets@ },
            Cmd::ZiRsp { extended, zones } => CmdView::ZiRsp {
                extended: *extended,
                zones: zip::zones_view(zones@),
            },
            Cmd::GznReq { zone } => CmdView::GznReq { zone: zone@ },
            Cmd::GznRsp { zone, tuples } => CmdView::GznRsp {
                zone: zone@,
                tuples: match tuples {
                    Some(ts) => Some(ts@),
                    None => None,
                },
            },
            Cmd::GdzlReq { start } => CmdView::GdzlReq { start: *start },
            Cmd::GdzlRsp { last, start, zones } => CmdView::GdzlRsp {
                last: *last,
                start: *start,
                zones: zones.deep_view(),
            },
            Cmd::OpenReq { sui, version, options } => CmdView::OpenReq {
                sui: *sui,
                version: *version,
                options: options_view(options@),
            },
            Cmd::OpenRsp { env, rate_or_err, options } => CmdView::OpenRsp {
                env: *env,
                rate_or_err: *rate_or_err,
                options: options_view(options@),
            },
            Cmd::Tickle => CmdView::Tickle,
            Cmd::TickleAck => CmdView::TickleAck,
        }
    }
}

impl DeepView for Aurp {
    type V = AurpView;

    open spec fn deep_view(&self) -> AurpView {
        match self {
            Aurp::Data { dh, ddp } => AurpView::Data { dh: *dh, ddp: ddp@ },
            Aurp::Routing { dh, conn, seq, cmd } => AurpView::Routing {
                dh: *dh,
                conn: *conn,
                seq: *seq,
                cmd: cmd.deep_view(),
            },
        }
    }
}

// ------------------------------------------------------------------- codec

/// The four "send update information" bits.
fn sui_of(flags: u16) -> (r: u16)
    ensures
        r == sui_bits(flags),
{
    ((flags / 0x800) % 16) * 0x800
}

/// The environment bits.
fn env_of(flags: u16) -> (r: u16)
    ensures
        r == env_bits(flags),
{
    ((flags / 0x2000) % 4) * 0x2000
}

impl Cmd {
    /// All four "send update information" flags: what every Open-Req and
    /// RI-Req on GlobalTalk carries.
    pub const ALL_SUI: u16 = 0x7800;

    /// On an RI-Ack: also send the zones of the networks just acked.
    pub const SZI: u16 = 0x4000;

    /// Last packet of a sequence, in RI-Rsp and GDZL-Rsp.
    pub const LAST: u16 = 0x8000;

    /// The command code this variant travels as. Subcodes live in the body.
    fn code(&self) -> (r: u16)
        ensures
            r == self.deep_view().code(),
    {
        match self {
            Cmd::RiReq { .. } => 1,
            Cmd::RiRsp { .. } => 2,
            Cmd::RiAck { .. } => 3,
            Cmd::RiUpd { .. } => 4,
            Cmd::Rd { .. } => 5,
            Cmd::ZiReq { .. } => 6,
            Cmd::GznReq { .. } => 6,
            Cmd::GdzlReq { .. } => 6,
            Cmd::ZiRsp { .. } => 7,
            Cmd::GznRsp { .. } => 7,
            Cmd::GdzlRsp { .. } => 7,
            Cmd::OpenReq { .. } => 8,
            Cmd::OpenRsp { .. } => 9,
            Cmd::Tickle => 14,
            Cmd::TickleAck => 15,
        }
    }

    /// The flags word. Everything not listed here is reserved and written 0.
    fn flags(&self) -> (r: u16)
        ensures
            r == self.deep_view().flags(),
    {
        match self {
            Cmd::RiReq { sui } => sui_of(*sui),
            Cmd::OpenReq { sui, .. } => sui_of(*sui),
            Cmd::RiRsp { last, .. } => if *last {
                Cmd::LAST
            } else {
                0
            },
            Cmd::GdzlRsp { last, .. } => if *last {
                Cmd::LAST
            } else {
                0
            },
            Cmd::RiAck { szi } => if *szi {
                Cmd::SZI
            } else {
                0
            },
            Cmd::OpenRsp { env, .. } => env_of(*env),
            _ => 0,
        }
    }

    /// Whether this is a transaction, which carries sequence number 0.
    pub fn is_transaction(&self) -> (r: bool)
        ensures
            r == self.deep_view().transaction(),
    {
        match self {
            Cmd::RiRsp { .. } => false,
            Cmd::RiUpd { .. } => false,
            Cmd::Rd { .. } => false,
            Cmd::RiAck { .. } => false,
            _ => true,
        }
    }

    fn parse(code: u16, flags: u16, b: &[u8]) -> (r: Option<Cmd>)
        ensures
            r.deep_view() == CmdView::parse(code, flags, b@),
    {
        match code {
            1 => if b.len() == 0 {
                Some(Cmd::RiReq { sui: sui_of(flags) })
            } else {
                None
            },
            2 => match rtmp::parse_tuples(b) {
                None => None,
                Some(tuples) => Some(Cmd::RiRsp { last: flags >= 0x8000, tuples }),
            },
            3 => if b.len() == 0 {
                Some(Cmd::RiAck { szi: (flags / 0x4000) % 2 == 1 })
            } else {
                None
            },
            4 => match parse_events(b) {
                None => None,
                Some(events) => Some(Cmd::RiUpd { events }),
            },
            5 => if b.len() == 2 {
                Some(Cmd::Rd { code: to_signed(read16(b, 0)) })
            } else {
                None
            },
            6 => Self::parse_sub(code, flags, b),
            7 => Self::parse_sub(code, flags, b),
            8 => {
                if b.len() < 3 {
                    return None;
                }
                let rest = slice_subrange(b, 3, b.len());
                assert(rest@ =~= b@.skip(3));
                match parse_options(rest, b[2]) {
                    None => None,
                    Some(options) => Some(
                        Cmd::OpenReq { sui: sui_of(flags), version: read16(b, 0), options },
                    ),
                }
            },
            9 => {
                if b.len() < 3 {
                    return None;
                }
                let rest = slice_subrange(b, 3, b.len());
                assert(rest@ =~= b@.skip(3));
                match parse_options(rest, b[2]) {
                    None => None,
                    Some(options) => Some(
                        Cmd::OpenRsp {
                            env: env_of(flags),
                            rate_or_err: to_signed(read16(b, 0)),
                            options,
                        },
                    ),
                }
            },
            14 => if b.len() == 0 {
                Some(Cmd::Tickle)
            } else {
                None
            },
            15 => if b.len() == 0 {
                Some(Cmd::TickleAck)
            } else {
                None
            },
            _ => None,  // 10-13 and above 15 are undefined
        }
    }

    /// Commands 6 and 7 carry a two-byte subcode as the first field of the
    /// body.
    fn parse_sub(code: u16, flags: u16, b: &[u8]) -> (r: Option<Cmd>)
        requires
            code == 6 || code == 7,
        ensures
            r.deep_view() == CmdView::parse_sub(code, flags, b@),
    {
        if b.len() < 2 {
            return None;
        }
        let sub = read16(b, 0);
        let rest = slice_subrange(b, 2, b.len());
        assert(rest@ =~= b@.skip(2));
        match (code == 6, sub) {
            (true, 1) => {
                if rest.len() % 2 != 0 {
                    return None;
                }
                Some(Cmd::ZiReq { nets: zip::parse_numbers(rest) })
            },
            (false, 1) => parse_zi_rsp(sub, b),
            (false, 2) => parse_zi_rsp(sub, b),
            (true, 3) => match pstring(rest) {
                None => None,
                Some((zone, tail)) => if tail.len() == 0 {
                    Some(Cmd::GznReq { zone })
                } else {
                    None
                },
            },
            (false, 3) => parse_gzn_rsp(rest),
            (true, 4) => if rest.len() == 2 {
                Some(Cmd::GdzlReq { start: read16(rest, 0) })
            } else {
                None
            },
            (false, 4) => {
                if rest.len() < 2 {
                    return None;
                }
                let names = slice_subrange(rest, 2, rest.len());
                assert(names@ =~= rest@.skip(2));
                match parse_all_names(names) {
                    None => None,
                    Some(zones) => Some(
                        Cmd::GdzlRsp {
                            last: flags >= 0x8000,
                            start: to_signed(read16(rest, 0)),
                            zones,
                        },
                    ),
                }
            },
            _ => None,
        }
    }

    /// The body after the routing header, subcode included.
    fn encode_body(&self, out: &mut Vec<u8>)
        ensures
            final(out)@ == old(out)@ + self.deep_view().body(),
    {
        match self {
            // AURP's extended tuple ends in 0x00 where RTMP's carries 0x82.
            Cmd::RiRsp { tuples, .. } => rtmp::encode_tuples(out, tuples, 0x00),
            Cmd::RiUpd { events } => encode_events(out, events),
            Cmd::Rd { code } => push16(out, to_unsigned(*code)),
            Cmd::ZiReq { nets } => {
                push16(out, 1);
                zip::encode_numbers(out, nets);
            },
            Cmd::ZiRsp { extended, zones } => encode_zi_rsp(out, *extended, zones),
            Cmd::GznReq { zone } => {
                push16(out, 3);
                put_pstring(out, zone.as_str());
            },
            Cmd::GznRsp { zone, tuples } => {
                push16(out, 3);
                put_pstring(out, zone.as_str());
                match tuples {
                    None => push16(out, 0xffff),
                    Some(ts) => {
                        push16(out, low16(ts.len()));
                        rtmp::encode_tuples(out, ts, 0x00);
                    },
                }
            },
            Cmd::GdzlReq { start } => {
                push16(out, 4);
                push16(out, *start);
            },
            Cmd::GdzlRsp { start, zones, .. } => {
                push16(out, 4);
                push16(out, to_unsigned(*start));
                encode_names(out, zones);
            },
            Cmd::OpenReq { version, options, .. } => {
                push16(out, *version);
                encode_options(out, options);
            },
            Cmd::OpenRsp { rate_or_err, options, .. } => {
                push16(out, to_unsigned(*rate_or_err));
                encode_options(out, options);
            },
            _ => {},
        }
        assert(out@ =~= old(out)@ + self.deep_view().body());
    }

    /// Appends the printed form.
    pub fn write(&self, out: &mut String)
        ensures
            final(out)@ == old(out)@ + self.deep_view().text(),
    {
        match self {
            Cmd::RiReq { .. } => fmt::push_text(out, "ri-req"),
            Cmd::RiRsp { last, tuples } => {
                fmt::push_text(out, "ri-rsp");
                fmt::push_text(
                    out,
                    if *last {
                        " last"
                    } else {
                        ""
                    },
                );
                fmt::push_text(out, " ");
                fmt::push_dec(out, tuples.len() as u64);
                fmt::push_text(out, " nets");
            },
            Cmd::RiAck { szi } => {
                fmt::push_text(out, "ri-ack");
                fmt::push_text(
                    out,
                    if *szi {
                        " szi"
                    } else {
                        ""
                    },
                );
            },
            Cmd::RiUpd { events } => {
                fmt::push_text(out, "ri-upd ");
                fmt::push_dec(out, events.len() as u64);
                fmt::push_text(out, " events");
            },
            Cmd::Rd { code } => {
                fmt::push_text(out, "rd ");
                fmt::push_signed(out, *code);
            },
            Cmd::ZiReq { nets } => {
                fmt::push_text(out, "zi-req");
                push_spaced(out, nets);
            },
            Cmd::ZiRsp { zones, .. } => {
                fmt::push_text(out, "zi-rsp ");
                fmt::push_dec(out, zones.len() as u64);
                fmt::push_text(out, " zones");
            },
            Cmd::GznReq { zone } => {
                fmt::push_text(out, "gzn-req \"");
                fmt::push_text(out, zone.as_str());
                fmt::push_text(out, "\"");
            },
            Cmd::GznRsp { .. } => fmt::push_text(out, "gzn-rsp"),
            Cmd::GdzlReq { start } => {
                fmt::push_text(out, "gdzl-req ");
                fmt::push_dec(out, *start as u64);
            },
            Cmd::GdzlRsp { .. } => fmt::push_text(out, "gdzl-rsp"),
            Cmd::OpenReq { sui, version, .. } => {
                fmt::push_text(out, "open-req sui ");
                fmt::push_hex(out, *sui as u64, 4);
                fmt::push_text(out, " v");
                fmt::push_dec(out, *version as u64);
            },
            Cmd::OpenRsp { rate_or_err, .. } => {
                fmt::push_text(
                    out,
                    if *rate_or_err < 0 {
                        "open-rsp error "
                    } else {
                        "open-rsp rate "
                    },
                );
                fmt::push_signed(out, *rate_or_err);
            },
            Cmd::Tickle => fmt::push_text(out, "tickle"),
            Cmd::TickleAck => fmt::push_text(out, "tickle-ack"),
        }
        assert(out@ =~= old(out)@ + self.deep_view().text());
    }

    pub fn to_string(&self) -> (r: String)
        ensures
            r@ == self.deep_view().text(),
    {
        let mut s = String::new();
        self.write(&mut s);
        assert(s@ =~= self.deep_view().text());
        s
    }
}

/// Appends numbers with a space before each.
fn push_spaced(out: &mut String, nets: &Vec<u16>)
    ensures
        final(out)@ == old(out)@ + spaced(nets@),
{
    assert(nets@.take(0) =~= Seq::empty());
    assert(out@ =~= old(out)@ + spaced(nets@.take(0)));
    let mut i: usize = 0;
    while i < nets.len()
        invariant
            i <= nets@.len(),
            out@ == old(out)@ + spaced(nets@.take(i as int)),
        decreases nets@.len() - i,
    {
        fmt::push_text(out, " ");
        fmt::push_dec(out, nets[i] as u64);
        assert(nets@.take(i + 1).drop_last() =~= nets@.take(i as int));
        i = i + 1;
        assert(out@ =~= old(out)@ + spaced(nets@.take(i as int)));
    }
    assert(nets@.take(i as int) =~= nets@);
}

fn parse_di(p: &[u8]) -> (r: Option<(Di, &[u8])>)
    ensures
        match r {
            Some((d, rest)) => Di::spec_parse(p@) == Some((d, rest@)),
            None => Di::spec_parse(p@) is None,
        },
{
    if p.len() >= 2 && p[1] == 0 && p[0] == 1 {
        let rest = slice_subrange(p, 2, p.len());
        assert(rest@ =~= p@.skip(2));
        return Some((Di::Null, rest));
    }
    if p.len() >= 8 && p[1] == 1 && p[0] == 7 {
        let rest = slice_subrange(p, 8, p.len());
        assert(rest@ =~= p@.skip(8));
        return Some((Di::Ip(Ipv4Addr(p[4], p[5], p[6], p[7])), rest));
    }
    None  // unknown authority, or a known one with the wrong length

}

fn encode_di(out: &mut Vec<u8>, di: Di)
    ensures
        final(out)@ == old(out)@ + di.bytes(),
{
    match di {
        Di::Null => {
            out.push(0x01);
            out.push(0x00);
        },
        Di::Ip(a) => {
            out.push(0x07);
            out.push(0x01);
            out.push(0x00);
            out.push(0x00);
            out.push(a.0);
            out.push(a.1);
            out.push(a.2);
            out.push(a.3);
        },
    }
    assert(out@ =~= old(out)@ + di.bytes());
}

fn parse_event(p: &[u8]) -> (r: Option<(EventTuple, &[u8])>)
    ensures
        match r {
            Some((e, rest)) => EventTuple::spec_parse(p@) == Some((e, rest@)),
            None => EventTuple::spec_parse(p@) is None,
        },
{
    if p.len() == 0 {
        return None;
    }
    let code = p[0];
    if code == 0 {
        let rest = slice_subrange(p, 1, p.len());
        assert(rest@ =~= p@.skip(1));
        let tuple = NetworkTuple { range: (0, 0), extended: false, distance: 0 };
        return Some((EventTuple { code, tuple }, rest));
    }
    if p.len() < 4 {
        return None;
    }
    let start = read16(p, 1);
    if p[3] < 0x80 {
        let tuple = NetworkTuple { range: (start, start), extended: false, distance: p[3] };
        let rest = slice_subrange(p, 4, p.len());
        assert(rest@ =~= p@.skip(4));
        return Some((EventTuple { code, tuple }, rest));
    }
    if p.len() < 6 {
        return None;
    }
    let tuple = NetworkTuple { range: (start, read16(p, 4)), extended: true, distance: p[3] - 0x80 };
    let rest = slice_subrange(p, 6, p.len());
    assert(rest@ =~= p@.skip(6));
    Some((EventTuple { code, tuple }, rest))
}

fn encode_event(out: &mut Vec<u8>, e: &EventTuple)
    ensures
        final(out)@ == old(out)@ + e.bytes(),
{
    out.push(e.code);
    if e.code != 0 {
        push16(out, e.tuple.range.0);
        if !e.tuple.extended {
            out.push(e.tuple.distance % 0x80);
        } else {
            out.push(0x80 + e.tuple.distance % 0x80);
            push16(out, e.tuple.range.1);
        }
    }
    assert(out@ =~= old(out)@ + e.bytes());
}

fn parse_events(p: &[u8]) -> (r: Option<Vec<EventTuple>>)
    ensures
        match r {
            Some(es) => events_of(p@) == Some(es@),
            None => events_of(p@) is None,
        },
{
    let mut events: Vec<EventTuple> = Vec::new();
    let mut rest: &[u8] = p;
    while rest.len() > 0
        invariant
            events_of(p@) == (match events_of(rest@) {
                None => None,
                Some(es) => Some(events@ + es),
            }),
        decreases rest@.len(),
    {
        match parse_event(rest) {
            None => {
                return None;
            },
            Some((e, tail)) => {
                let ghost before = events@;
                events.push(e);
                rest = tail;
                proof {
                    if let Some(es) = events_of(rest@) {
                        assert(before + (seq![e] + es) =~= events@ + es);
                    }
                }
            },
        }
    }
    assert(events@ + Seq::<EventTuple>::empty() =~= events@);
    Some(events)
}

fn encode_events(out: &mut Vec<u8>, es: &Vec<EventTuple>)
    ensures
        final(out)@ == old(out)@ + events_bytes(es@),
{
    assert(es@.take(0) =~= Seq::empty());
    assert(out@ =~= old(out)@ + events_bytes(es@.take(0)));
    let mut i: usize = 0;
    while i < es.len()
        invariant
            i <= es@.len(),
            out@ == old(out)@ + events_bytes(es@.take(i as int)),
        decreases es@.len() - i,
    {
        encode_event(out, &es[i]);
        assert(es@.take(i + 1).drop_last() =~= es@.take(i as int));
        i = i + 1;
        assert(out@ =~= old(out)@ + events_bytes(es@.take(i as int)));
    }
    assert(es@.take(i as int) =~= es@);
}

fn parse_all_names(p: &[u8]) -> (r: Option<Vec<String>>)
    ensures
        match r {
            Some(ns) => all_names(p@) == Some(ns.deep_view()),
            None => all_names(p@) is None,
        },
{
    let mut names: Vec<String> = Vec::new();
    let mut rest = p;
    proof {
        if let Some(ns) = all_names(p@) {
            assert(names.deep_view() + ns =~= ns);
        }
    }
    while rest.len() > 0
        invariant
            all_names(p@) == (match all_names(rest@) {
                None => None,
                Some(ns) => Some(names.deep_view() + ns),
            }),
        decreases rest@.len(),
    {
        match pstring(rest) {
            None => {
                return None;
            },
            Some((name, tail)) => {
                let ghost before = names.deep_view();
                let ghost nv = name@;
                names.push(name);
                rest = tail;
                assert(names.deep_view() =~= before.push(nv));
                proof {
                    if let Some(ns) = all_names(rest@) {
                        assert(before + (seq![nv] + ns) =~= names.deep_view() + ns);
                    }
                }
            },
        }
    }
    assert(names.deep_view() + Seq::empty() =~= names.deep_view());
    Some(names)
}

fn encode_names(out: &mut Vec<u8>, names: &Vec<String>)
    ensures
        final(out)@ == old(out)@ + names_bytes(names.deep_view()),
{
    let ghost ns = names.deep_view();
    assert(ns.take(0) =~= Seq::empty());
    assert(out@ =~= old(out)@ + names_bytes(ns.take(0)));
    let mut i: usize = 0;
    while i < names.len()
        invariant
            i <= names@.len(),
            ns == names.deep_view(),
            out@ == old(out)@ + names_bytes(ns.take(i as int)),
        decreases names@.len() - i,
    {
        put_pstring(out, names[i].as_str());
        assert(ns.take(i + 1).drop_last() =~= ns.take(i as int));
        i = i + 1;
        assert(out@ =~= old(out)@ + names_bytes(ns.take(i as int)));
    }
    assert(ns.take(i as int) =~= ns);
}

fn parse_gzn_rsp(rest: &[u8]) -> (r: Option<Cmd>)
    ensures
        r.deep_view() == CmdView::parse_gzn_rsp(rest@),
{
    match pstring(rest) {
        None => None,
        Some((zone, tail)) => {
            if tail.len() < 2 {
                return None;
            }
            let count = read16(tail, 0);
            if count >= 0x8000 {
                // -1 is "not supported"; nothing may follow it.
                if count == 0xffff && tail.len() == 2 {
                    return Some(Cmd::GznRsp { zone, tuples: None });
                }
                return None;
            }
            let body = slice_subrange(tail, 2, tail.len());
            assert(body@ =~= tail@.skip(2));
            match rtmp::parse_tuples(body) {
                Some(tuples) => if tuples.len() == count as usize {
                    Some(Cmd::GznRsp { zone, tuples: Some(tuples) })
                } else {
                    None
                },
                None => None,
            }
        },
    }
}

/// `b` is the whole body, subcode included, because an optimized tuple's
/// offset is measured from a fixed place in it.
fn parse_zi_rsp(sub: u16, b: &[u8]) -> (r: Option<Cmd>)
    ensures
        r.deep_view() == CmdView::parse_zi_rsp(sub, b@),
{
    if b.len() < 4 {
        return None;
    }
    let count = read16(b, 2);
    let mut zones: Vec<(u16, String)> = Vec::new();
    let mut rest = slice_subrange(b, 4, b.len());
    assert(rest@ =~= b@.skip(4));
    proof {
        if let Some(zs) = zone_tuples(b@, rest@) {
            assert(zip::zones_view(zones@) + zs =~= zs);
        }
    }
    while rest.len() > 0
        invariant
            b@.len() >= 4,
            b@.len() <= usize::MAX,
            zone_tuples(b@, b@.skip(4)) == (match zone_tuples(b@, rest@) {
                None => None,
                Some(zs) => Some(zip::zones_view(zones@) + zs),
            }),
        decreases rest@.len(),
    {
        if rest.len() < 3 {
            return None;
        }
        let net = read16(rest, 0);
        let ghost before = zip::zones_view(zones@);
        if rest[2] < 0x80 {
            // Long tuple: the name is spelled out here.
            let body = slice_subrange(rest, 2, rest.len());
            assert(body@ =~= rest@.skip(2));
            match pstring(body) {
                None => {
                    return None;
                },
                Some((name, tail)) => {
                    let ghost z = (net, name@);
                    zones.push((net, name));
                    rest = tail;
                    assert(zip::zones_view(zones@) =~= before.push(z));
                    proof {
                        if let Some(zs) = zone_tuples(b@, rest@) {
                            assert(before + (seq![z] + zs) =~= zip::zones_view(zones@) + zs);
                        }
                    }
                },
            }
        } else {
            // Optimized tuple: an offset to a name already in this packet.
            if rest.len() < 4 {
                return None;
            }
            let off: usize = wire::join16(rest[2] - 0x80, rest[3]) as usize;
            let at: usize = ZONE_BASE + off;
            if at >= b.len() {
                return None;
            }
            if b[at] >= 0x80 {
                return None;  // points at another offset, not a name
            }
            let there = slice_subrange(b, at, b.len());
            assert(there@ =~= b@.skip(at as int));
            match pstring(there) {
                None => {
                    return None;
                },
                Some((name, _tail)) => {
                    let ghost z = (net, name@);
                    let tail = slice_subrange(rest, 4, rest.len());
                    assert(tail@ =~= rest@.skip(4));
                    zones.push((net, name));
                    rest = tail;
                    assert(zip::zones_view(zones@) =~= before.push(z));
                    proof {
                        if let Some(zs) = zone_tuples(b@, rest@) {
                            assert(before + (seq![z] + zs) =~= zip::zones_view(zones@) + zs);
                        }
                    }
                },
            }
        }
    }
    assert(zip::zones_view(zones@) + Seq::empty() =~= zip::zones_view(zones@));
    // The count is the whole list's on subcode 2 and cannot be recomputed;
    // every tuple present is processed regardless of it either way.
    let extended = if sub == 2 {
        Some(count)
    } else {
        None
    };
    Some(Cmd::ZiRsp { extended, zones })
}

/// What stands before the tuple at `i`, and how long it is.
spec fn starts_ok(zs: Seq<(u16, Seq<char>)>, starts: Seq<u16>) -> bool {
    &&& starts.len() <= zs.len()
    &&& forall|j: int|
        0 <= j < starts.len() ==> #[trigger] starts[j] == zone_bytes(zs.take(j)).len() % 0x8000
}

/// Where a name first stands among the first `n` zones.
fn find_name(zones: &Vec<(u16, String)>, n: usize, name: &String) -> (r: Option<usize>)
    requires
        n <= zones@.len(),
    ensures
        match r {
            Some(k) => {
                &&& k < n
                &&& named(zip::zones_view(zones@).take(n as int), name@)
                &&& k == first_named(zip::zones_view(zones@).take(n as int), name@)
            },
            None => !named(zip::zones_view(zones@).take(n as int), name@),
        },
{
    let ghost zs = zip::zones_view(zones@);
    let mut i: usize = 0;
    while i < n
        invariant
            i <= n,
            n <= zones@.len(),
            zs == zip::zones_view(zones@),
            !named(zs.take(i as int), name@),
        decreases n - i,
    {
        if zones[i].1 == *name {
            proof {
                lemma_first_named(zs.take(n as int), name@, i as int);
            }
            return Some(i);
        }
        assert(!named(zs.take(i + 1), name@)) by {
            if named(zs.take(i + 1), name@) {
                let j = choose|j: int|
                    0 <= j < zs.take(i + 1).len() && (#[trigger] zs.take(i + 1)[j]).1 == name@;
                if j < i {
                    assert(zs.take(i as int)[j].1 == name@);
                }
            }
        }
        i = i + 1;
    }
    None
}

/// The first place of a name is where it stands with nothing before it.
proof fn lemma_first_named(zs: Seq<(u16, Seq<char>)>, name: Seq<char>, k: int)
    requires
        0 <= k < zs.len(),
        zs[k].1 == name,
        !named(zs.take(k), name),
    ensures
        named(zs, name),
        first_named(zs, name) == k,
    decreases zs.len(),
{
    let a = zs.drop_last();
    if k < a.len() {
        assert(a.take(k) =~= zs.take(k));
        lemma_first_named(a, name, k);
    } else {
        assert(a =~= zs.take(k));
    }
}

fn encode_zi_rsp(out: &mut Vec<u8>, extended: Option<u16>, zones: &Vec<(u16, String)>)
    ensures
        final(out)@ == old(out)@ + (CmdView::ZiRsp {
            extended,
            zones: zip::zones_view(zones@),
        }).body(),
{
    match extended {
        Some(total) => {
            push16(out, 2);
            push16(out, total);
        },
        None => {
            push16(out, 1);
            push16(out, low16(zones.len()));
        },
    }
    let ghost head = out@;
    let ghost zs = zip::zones_view(zones@);
    // How many bytes stand before each tuple, as an offset can say it.
    let mut starts: Vec<u16> = Vec::new();
    let mut used: u16 = 0;
    assert(zs.take(0) =~= Seq::empty());
    assert(out@ =~= head + zone_bytes(zs.take(0)));
    let mut i: usize = 0;
    while i < zones.len()
        invariant
            i <= zones@.len(),
            zs == zip::zones_view(zones@),
            starts@.len() == i,
            starts_ok(zs, starts@),
            used == zone_bytes(zs.take(i as int)).len() % 0x8000,
            out@ == head + zone_bytes(zs.take(i as int)),
        decreases zones@.len() - i,
    {
        let ghost before = zs.take(i as int);
        let ghost name = zs[i as int].1;
        let ghost grown = zone_bytes(before) + wire::be16(zs[i as int].0);
        starts.push(used);
        push16(out, zones[i].0);
        match find_name(zones, i, &zones[i].1) {
            Some(k) => {
                push16(out, 0x8000 + starts[k]);
                proof {
                    assert(before.take(k as int) =~= zs.take(k as int));
                    assert(starts@[k as int] == zone_bytes(zs.take(k as int)).len() % 0x8000);
                }
                assert(out@ =~= head + (grown + zone_ref(before, name)));
                used = (used + 4) % 0x8000;
            },
            None => {
                let was: usize = out.len();
                put_pstring(out, zones[i].1.as_str());
                assert(out@ =~= head + (grown + zone_ref(before, name)));
                assert(wire::pname(name).len() <= 33);
                let n: usize = out.len() - was;
                used = (used + 2 + n as u16) % 0x8000;
            },
        }
        assert(zs.take(i + 1).drop_last() =~= before);
        assert(zs.take(i + 1).last() == zs[i as int]);
        i = i + 1;
        assert(zone_bytes(zs.take(i as int)) =~= grown + zone_ref(before, name));
        assert(out@ =~= head + zone_bytes(zs.take(i as int)));
    }
    assert(zs.take(i as int) =~= zs);
    assert(out@ =~= old(out)@ + (CmdView::ZiRsp { extended, zones: zs }).body());
}

fn parse_options(p: &[u8], count: u8) -> (r: Option<Vec<(u8, Vec<u8>)>>)
    ensures
        match r {
            Some(os) => options_of(p@, count as nat) == Some(options_view(os@)),
            None => options_of(p@, count as nat) is None,
        },
{
    let mut options: Vec<(u8, Vec<u8>)> = Vec::new();
    let mut rest = p;
    let mut i: u8 = 0;
    proof {
        if let Some(os) = options_of(p@, count as nat) {
            assert(options_view(options@) + os =~= os);
        }
    }
    while i < count
        invariant
            i <= count,
            options_of(p@, count as nat) == (match options_of(rest@, (count - i) as nat) {
                None => None,
                Some(os) => Some(options_view(options@) + os),
            }),
        decreases count - i,
    {
        // The length counts the type byte and the data, so it is never 0.
        if rest.len() == 0 {
            return None;
        }
        let len: usize = rest[0] as usize;
        if len == 0 || rest.len() < 1 + len {
            return None;
        }
        let typ = rest[1];
        let data = slice_subrange(rest, 2, 1 + len);
        let tail = slice_subrange(rest, 1 + len, rest.len());
        assert(tail@ =~= rest@.skip(1 + len));
        let ghost before = options_view(options@);
        let ghost o = (typ, data@);
        let d = slice_to_vec(data);
        options.push((typ, d));
        rest = tail;
        i = i + 1;
        assert(options_view(options@) =~= before.push(o));
        proof {
            if let Some(os) = options_of(rest@, (count - i) as nat) {
                assert(before + (seq![o] + os) =~= options_view(options@) + os);
            }
        }
    }
    if rest.len() == 0 {
        assert(options_view(options@) + Seq::empty() =~= options_view(options@));
        Some(options)
    } else {
        None
    }
}

fn encode_options(out: &mut Vec<u8>, options: &Vec<(u8, Vec<u8>)>)
    ensures
        final(out)@ == old(out)@ + option_list(options_view(options@)),
{
    let ghost os = options_view(options@);
    out.push((options.len() % 256) as u8);
    let ghost head = out@;
    assert(os.take(0) =~= Seq::empty());
    assert(out@ =~= head + options_bytes(os.take(0)));
    let mut i: usize = 0;
    while i < options.len()
        invariant
            i <= options@.len(),
            os == options_view(options@),
            out@ == head + options_bytes(os.take(i as int)),
        decreases options@.len() - i,
    {
        let n: usize = options[i].1.len() % 256;
        out.push(((1 + n) % 256) as u8);
        out.push(options[i].0);
        push_bytes(out, options[i].1.as_slice());
        assert(os.take(i + 1).drop_last() =~= os.take(i as int));
        i = i + 1;
        assert(out@ =~= head + options_bytes(os.take(i as int)));
    }
    assert(os.take(i as int) =~= os);
    assert(out@ =~= old(out)@ + option_list(os));
}

impl Di {
    /// Appends the printed form.
    pub fn write(&self, out: &mut String)
        ensures
            final(out)@ == old(out)@ + self.text(),
    {
        match self {
            Di::Null => fmt::push_text(out, "null"),
            Di::Ip(a) => a.write(out),
        }
    }

    pub fn to_string(&self) -> (r: String)
        ensures
            r@ == self.text(),
    {
        let mut s = String::new();
        self.write(&mut s);
        assert(s@ =~= self.text());
        s
    }
}

impl Aurp {
    pub fn parse(p: &[u8]) -> (r: Option<Aurp>)
        ensures
            r.deep_view() == AurpView::parse(p@),
    {
        let (dst, r1) = parse_di(p)?;
        let (src, r2) = parse_di(r1)?;
        if r2.len() < 6 || read16(r2, 0) != VERSION {
            return None;
        }
        // The two bytes after the version are reserved and ignored.
        let dh = DomainHeader { dst, src };
        let body = slice_subrange(r2, 6, r2.len());
        assert(body@ =~= r2@.skip(6));
        match read16(r2, 4) {
            // One whole DDP datagram with the 13-byte extended header.
            TYPE_DATA => {
                if body.len() < 13 || wire::join16(body[0] % 4, body[1]) as usize != body.len() {
                    return None;
                }
                Some(Aurp::Data { dh, ddp: slice_to_vec(body) })
            },
            TYPE_ROUTING => {
                if body.len() < 8 {
                    return None;
                }
                let rest = slice_subrange(body, 8, body.len());
                assert(rest@ =~= body@.skip(8));
                let cmd = Cmd::parse(read16(body, 4), read16(body, 6), rest)?;
                Some(Aurp::Routing { dh, conn: read16(body, 0), seq: read16(body, 2), cmd })
            },
            _ => None,
        }
    }

    pub fn to_string(&self) -> (r: String)
        ensures
            r@ == self.deep_view().text(),
    {
        match self {
            Aurp::Data { dh, ddp } => {
                let mut s = fmt::text("aurp-data ");
                dh.src.write(&mut s);
                fmt::push_text(&mut s, " > ");
                dh.dst.write(&mut s);
                fmt::push_text(&mut s, " ");
                fmt::push_dec(&mut s, ddp.len() as u64);
                fmt::push_text(&mut s, " bytes");
                s
            },
            Aurp::Routing { dh, conn, seq, cmd } => {
                let mut s = fmt::text("aurp ");
                dh.src.write(&mut s);
                fmt::push_text(&mut s, " > ");
                dh.dst.write(&mut s);
                fmt::push_text(&mut s, " conn ");
                fmt::push_dec(&mut s, *conn as u64);
                fmt::push_text(&mut s, " seq ");
                fmt::push_dec(&mut s, *seq as u64);
                fmt::push_text(&mut s, " ");
                cmd.write(&mut s);
                s
            },
        }
    }
}

impl Encode for Aurp {
    open spec fn encoding(&self) -> Seq<u8> {
        self.deep_view().bytes()
    }

    fn encode(&self, out: &mut Vec<u8>) {
        let (dh, typ): (DomainHeader, u16) = match self {
            Aurp::Data { dh, .. } => (*dh, TYPE_DATA),
            Aurp::Routing { dh, .. } => (*dh, TYPE_ROUTING),
        };
        encode_di(out, dh.dst);
        encode_di(out, dh.src);
        push16(out, VERSION);
        out.push(0);  // reserved
        out.push(0);
        push16(out, typ);
        match self {
            Aurp::Data { ddp, .. } => push_bytes(out, ddp.as_slice()),
            Aurp::Routing { conn, seq, cmd, .. } => {
                push16(out, *conn);
                push16(out, *seq);
                push16(out, cmd.code());
                push16(out, cmd.flags());
                cmd.encode_body(out);
            },
        }
        assert(out@ =~= old(out)@ + self.encoding());
    }
}

} // verus!
