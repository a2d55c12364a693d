//! Zone Information Protocol.

use vstd::prelude::*;
use vstd::slice::*;

use crate::fmt;
use crate::wire;
use crate::wire::ddp::{checksum, checksum_of};
use crate::wire::{mac, pstring, push16, push_mac, put_pstring, read16, Encode, MacAddr};

verus! {

/// A ZIP packet sent directly over DDP. The GetZoneList / GetLocalZones /
/// GetMyZone calls are a separate thing entirely -- those ride on ATP with the
/// function in the user bytes, so they surface as ATP, not here.
#[derive(Debug, PartialEq, Eq)]
pub enum Zip {
    /// "Which zones are on these networks?"
    Query { nets: Vec<u16> },
    /// Network-to-zone-name answers. `extended` marks command 8, used when one
    /// network's zone list does not fit in a single reply.
    Reply { zones: Vec<(u16, String)>, extended: bool },
    /// A booting node asking a router for its cable range and zone.
    GetNetInfo { zone: String },
    NetInfoReply {
        flags: u8,
        range: (u16, u16),
        zone: String,
        /// The zone's multicast address; None when the reply names none.
        multicast: Option<MacAddr>,
        /// Sent when the requested zone was not valid on this cable.
        default_zone: Option<String>,
    },
    /// Zone name change. The body is left undecoded.
    Notify,
}

/// What a ZIP packet says.
pub enum ZipView {
    Query { nets: Seq<u16> },
    Reply { zones: Seq<(u16, Seq<char>)>, extended: bool },
    GetNetInfo { zone: Seq<char> },
    NetInfoReply {
        flags: u8,
        range: (u16, u16),
        zone: Seq<char>,
        multicast: Option<MacAddr>,
        default_zone: Option<Seq<char>>,
    },
    Notify,
}

/// The 16-bit numbers that fill `p`; an odd byte at the end is not one.
pub open spec fn numbers_of(p: Seq<u8>) -> Seq<u16> {
    Seq::new(p.len() / 2, |i: int| wire::u16_at(p, 2 * i))
}

/// Numbers back to back.
pub open spec fn numbers_bytes(ns: Seq<u16>) -> Seq<u8>
    decreases ns.len(),
{
    if ns.len() == 0 {
        Seq::empty()
    } else {
        numbers_bytes(ns.drop_last()) + wire::be16(ns.last())
    }
}

/// Exactly `n` network-and-name pairs at the front of `p`.
pub open spec fn zones_of(p: Seq<u8>, n: nat) -> Option<Seq<(u16, Seq<char>)>>
    decreases n,
{
    if n == 0 {
        Some(Seq::empty())
    } else if p.len() < 2 {
        None
    } else {
        match wire::pstring_of(p.skip(2)) {
            None => None,
            Some((name, rest)) => match zones_of(rest, (n - 1) as nat) {
                None => None,
                Some(zs) => Some(seq![(wire::u16_at(p, 0), name)] + zs),
            },
        }
    }
}

/// Network-and-name pairs back to back.
pub open spec fn zones_bytes(zs: Seq<(u16, Seq<char>)>) -> Seq<u8>
    decreases zs.len(),
{
    if zs.len() == 0 {
        Seq::empty()
    } else {
        zones_bytes(zs.drop_last()) + wire::be16(zs.last().0) + wire::pname(zs.last().1)
    }
}

/// The view of a list of network-and-name pairs.
pub open spec fn zones_view(zs: Seq<(u16, String)>) -> Seq<(u16, Seq<char>)> {
    Seq::new(zs.len(), |i: int| (zs[i].0, zs[i].1@))
}

/// A count byte, which stops at 255.
pub open spec fn count_byte(n: nat) -> u8 {
    if n < 255 {
        n as u8
    } else {
        255
    }
}

/// Numbers for printing, with commas between them.
pub open spec fn numbers_text(ns: Seq<u16>) -> Seq<char>
    decreases ns.len(),
{
    if ns.len() == 0 {
        Seq::empty()
    } else {
        numbers_text(ns.drop_last()) + (if ns.len() == 1 {
            ""@
        } else {
            ", "@
        }) + fmt::dec(ns.last() as nat)
    }
}

/// Pairs for printing, with commas between them.
pub open spec fn zones_text(zs: Seq<(u16, Seq<char>)>) -> Seq<char>
    decreases zs.len(),
{
    if zs.len() == 0 {
        Seq::empty()
    } else {
        zones_text(zs.drop_last()) + (if zs.len() == 1 {
            ""@
        } else {
            ", "@
        }) + fmt::dec(zs.last().0 as nat) + "="@ + zs.last().1
    }
}

/// "The zone you asked for is not on this cable."
pub open spec fn zone_invalid(flags: u8) -> bool {
    flags >= 0x80
}

impl ZipView {
    pub open spec fn parse(p: Seq<u8>) -> Option<ZipView> {
        if p.len() < 2 {
            None
        } else if p[0] == 1 {
            if p.len() < 2 + 2 * p[1] {
                None
            } else {
                Some(ZipView::Query { nets: numbers_of(p.subrange(2, 2 + 2 * p[1])) })
            }
        } else if p[0] == 2 || p[0] == 8 {
            match zones_of(p.skip(2), p[1] as nat) {
                None => None,
                Some(zones) => Some(ZipView::Reply { zones, extended: p[0] == 8 }),
            }
        } else if p[0] == 5 {
            if p.len() < 6 {
                None
            } else {
                match wire::pstring_of(p.skip(6)) {
                    None => None,
                    Some((zone, _)) => Some(ZipView::GetNetInfo { zone }),
                }
            }
        } else if p[0] == 6 {
            Self::parse_net_info(p)
        } else if p[0] == 7 {
            Some(ZipView::Notify)
        } else {
            None
        }
    }

    /// Flags, the cable range, the zone, then a multicast address of six
    /// bytes or none; the default zone follows if the requested one was
    /// rejected, and a reply that announces one without holding it is not
    /// decoded in part.
    pub open spec fn parse_net_info(p: Seq<u8>) -> Option<ZipView> {
        if p.len() < 6 {
            None
        } else {
            match wire::pstring_of(p.skip(6)) {
                None => None,
                Some((zone, rest)) => if rest.len() == 0 || rest.len() < 1 + rest[0] || (rest[0] != 0
                    && rest[0] != 6) {
                    None
                } else if zone_invalid(p[1]) && wire::pstring_of(rest.skip(1 + rest[0])) is None {
                    None
                } else {
                    Some(
                        ZipView::NetInfoReply {
                            flags: p[1],
                            range: (wire::u16_at(p, 2), wire::u16_at(p, 4)),
                            zone,
                            multicast: if rest[0] == 0 {
                                None
                            } else {
                                Some(MacAddr::of(rest.subrange(1, 7)))
                            },
                            default_zone: if zone_invalid(p[1]) {
                                match wire::pstring_of(rest.skip(1 + rest[0])) {
                                    None => None,
                                    Some((z, _)) => Some(z),
                                }
                            } else {
                                None
                            },
                        },
                    )
                },
            }
        }
    }

    pub open spec fn bytes(self) -> Seq<u8> {
        match self {
            ZipView::Query { nets } => seq![1u8, count_byte(nets.len())] + numbers_bytes(nets),
            ZipView::Reply { zones, extended } => seq![
                if extended {
                    8u8
                } else {
                    2u8
                },
                count_byte(zones.len()),
            ] + zones_bytes(zones),
            ZipView::GetNetInfo { zone } => seq![5u8, 0, 0, 0, 0, 0] + wire::pname(zone),
            ZipView::NetInfoReply { flags, range, zone, multicast, default_zone } => seq![6u8, flags]
                + wire::be16(range.0) + wire::be16(range.1) + wire::pname(zone) + (match multicast {
                Some(m) => seq![6u8] + m.bytes(),
                None => seq![0u8],
            }) + (match default_zone {
                Some(z) => wire::pname(z),
                None => Seq::empty(),
            }),
            ZipView::Notify => seq![7u8],
        }
    }

    /// A packet that travels unchanged: counts that fit a byte, plain names,
    /// and a default zone exactly when the flags announce one. A bare Notify
    /// is shorter than anything the parser takes.
    pub open spec fn valid(self) -> bool {
        match self {
            ZipView::Query { nets } => nets.len() <= 255,
            ZipView::Reply { zones, .. } => {
                &&& zones.len() <= 255
                &&& forall|i: int| 0 <= i < zones.len() ==> wire::name_ok((#[trigger] zones[i]).1)
            },
            ZipView::GetNetInfo { zone } => wire::name_ok(zone),
            ZipView::NetInfoReply { flags, zone, default_zone, .. } => {
                &&& wire::name_ok(zone)
                &&& default_zone is Some == zone_invalid(flags)
                &&& (default_zone matches Some(z) ==> wire::name_ok(z))
            },
            ZipView::Notify => false,
        }
    }

    pub open spec fn text(self) -> Seq<char> {
        match self {
            ZipView::Query { nets } => "query nets "@ + numbers_text(nets),
            ZipView::Reply { zones, extended } => (if extended {
                "ext-reply "@
            } else {
                "reply "@
            }) + zones_text(zones),
            ZipView::GetNetInfo { zone } => "get-net-info zone "@ + zone,
            ZipView::NetInfoReply { flags, range, zone, multicast, default_zone } =>
                "net-info-reply nets "@ + fmt::dec(range.0 as nat) + "-"@ + fmt::dec(
                range.1 as nat,
            ) + " zone "@ + zone + (match multicast {
                Some(m) => " mcast "@ + m.text(),
                None => Seq::empty(),
            }) + (if zone_invalid(flags) {
                " zone-invalid"@
            } else {
                Seq::empty()
            }) + (if (flags / 64) % 2 == 1 {
                " use-broadcast"@
            } else {
                Seq::empty()
            }) + (if (flags / 32) % 2 == 1 {
                " one-zone"@
            } else {
                Seq::empty()
            }) + (match default_zone {
                Some(z) => " default "@ + z,
                None => Seq::empty(),
            }),
            ZipView::Notify => "notify"@,
        }
    }
}

impl DeepView for Zip {
    type V = ZipView;

    open spec fn deep_view(&self) -> ZipView {
        match self {
            Zip::Query { nets } => ZipView::Query { nets: nets@ },
            Zip::Reply { zones, extended } => ZipView::Reply {
                zones: zones_view(zones@),
                extended: *extended,
            },
            Zip::GetNetInfo { zone } => ZipView::GetNetInfo { zone: zone@ },
            Zip::NetInfoReply { flags, range, zone, multicast, default_zone } => {
                ZipView::NetInfoReply {
                    flags: *flags,
                    range: *range,
                    zone: zone@,
                    multicast: *multicast,
                    default_zone: default_zone.deep_view(),
                }
            },
            Zip::Notify => ZipView::Notify,
        }
    }
}

/// Reads `p` as 16-bit numbers.
pub fn parse_numbers(p: &[u8]) -> (r: Vec<u16>)
    ensures
        r@ == numbers_of(p@),
{
    let mut out: Vec<u16> = Vec::new();
    let len: usize = p.len();
    let n: usize = len / 2;
    let mut i: usize = 0;
    while i < n
        invariant
            i <= n,
            n == len / 2,
            len == p@.len(),
            out@ == numbers_of(p@).take(i as int),
        decreases n - i,
    {
        out.push(read16(p, 2 * i));
        i = i + 1;
        assert(out@ =~= numbers_of(p@).take(i as int));
    }
    assert(out@ =~= numbers_of(p@));
    out
}

/// Appends numbers back to back.
pub fn encode_numbers(out: &mut Vec<u8>, ns: &Vec<u16>)
    ensures
        final(out)@ == old(out)@ + numbers_bytes(ns@),
{
    assert(ns@.take(0) =~= Seq::empty());
    assert(out@ =~= old(out)@ + numbers_bytes(ns@.take(0)));
    let mut i: usize = 0;
    while i < ns.len()
        invariant
            i <= ns@.len(),
            out@ == old(out)@ + numbers_bytes(ns@.take(i as int)),
        decreases ns@.len() - i,
    {
        push16(out, ns[i]);
        assert(ns@.take(i + 1).drop_last() =~= ns@.take(i as int));
        i = i + 1;
        assert(out@ =~= old(out)@ + numbers_bytes(ns@.take(i as int)));
    }
    assert(ns@.take(i as int) =~= ns@);
}

impl Zip {
    pub fn parse(p: &[u8]) -> (r: Option<Zip>)
        ensures
            r.deep_view() == ZipView::parse(p@),
    {
        if p.len() < 2 {
            return None;
        }
        let count: usize = p[1] as usize;
        match p[0] {
            1 => {
                if p.len() < 2 + 2 * count {
                    return None;
                }
                let body = slice_subrange(p, 2, 2 + 2 * count);
                Some(Zip::Query { nets: parse_numbers(body) })
            },
            2 | 8 => {
                let rest = slice_subrange(p, 2, p.len());
                assert(rest@ =~= p@.skip(2));
                let zones = Self::parse_zones(rest, p[1])?;
                Some(Zip::Reply { zones, extended: p[0] == 8 })
            },
            // Command, flags, then 4 zero bytes, then the zone being asked
            // about.
            5 => {
                if p.len() < 6 {
                    return None;
                }
                let rest = slice_subrange(p, 6, p.len());
                assert(rest@ =~= p@.skip(6));
                let (zone, _tail) = pstring(rest)?;
                Some(Zip::GetNetInfo { zone })
            },
            6 => Self::parse_net_info(p),
            7 => Some(Zip::Notify),
            _ => None,
        }
    }

    fn parse_zones(p: &[u8], n: u8) -> (r: Option<Vec<(u16, String)>>)
        ensures
            match r {
                Some(zs) => zones_of(p@, n as nat) == Some(zones_view(zs@)),
                None => zones_of(p@, n as nat) is None,
            },
    {
        let mut zones: Vec<(u16, String)> = Vec::new();
        let mut rest = p;
        let mut i: u8 = 0;
        proof {
            if let Some(zs) = zones_of(p@, n as nat) {
                assert(zones_view(zones@) + zs =~= zs);
            }
        }
        while i < n
            invariant
                i <= n,
                zones_of(p@, n as nat) == (match zones_of(rest@, (n - i) as nat) {
                    None => None,
                    Some(zs) => Some(zones_view(zones@) + zs),
                }),
            decreases n - i,
        {
            if rest.len() < 2 {
                return None;
            }
            let net = read16(rest, 0);
            let body = slice_subrange(rest, 2, rest.len());
            assert(body@ =~= rest@.skip(2));
            match pstring(body) {
                None => {
                    return None;
                },
                Some((name, tail)) => {
                    let ghost before = zones_view(zones@);
                    let ghost z = (net, name@);
                    zones.push((net, name));
                    rest = tail;
                    i = i + 1;
                    assert(zones_view(zones@) =~= before.push(z));
                    proof {
                        if let Some(zs) = zones_of(rest@, (n - i) as nat) {
                            assert(before + (seq![z] + zs) =~= zones_view(zones@) + zs);
                        }
                    }
                },
            }
        }
        assert(zones_view(zones@) + Seq::empty() =~= zones_view(zones@));
        Some(zones)
    }

    fn parse_net_info(p: &[u8]) -> (r: Option<Zip>)
        ensures
            r.deep_view() == ZipView::parse_net_info(p@),
    {
        if p.len() < 6 {
            return None;
        }
        let body = slice_subrange(p, 6, p.len());
        assert(body@ =~= p@.skip(6));
        let (zone, rest) = pstring(body)?;
        if rest.len() == 0 {
            return None;
        }
        let mclen: usize = rest[0] as usize;
        if rest.len() < 1 + mclen {
            return None;
        }
        let multicast = if mclen == 0 {
            None
        } else {
            let m = slice_subrange(rest, 1, 1 + mclen);
            match mac(m) {
                Some(a) => Some(a),
                None => {
                    return None;
                },
            }
        };
        let flags = p[1];
        let tail = slice_subrange(rest, 1 + mclen, rest.len());
        assert(tail@ =~= rest@.skip(1 + mclen));
        // Only present when the router rejected the requested zone.
        let default_zone = if flags >= 0x80 {
            match pstring(tail) {
                Some((z, _rest)) => Some(z),
                None => {
                    return None;
                },
            }
        } else {
            None
        };
        Some(
            Zip::NetInfoReply {
                flags,
                range: (read16(p, 2), read16(p, 4)),
                zone,
                multicast,
                default_zone,
            },
        )
    }

    fn net_info_text(&self) -> (r: String)
        requires
            self is NetInfoReply,
        ensures
            r@ == self.deep_view().text(),
    {
        if let Zip::NetInfoReply { flags, range, zone, multicast, default_zone } = self {
            let mut s = fmt::text("net-info-reply nets ");
            fmt::push_dec(&mut s, range.0 as u64);
            fmt::push_text(&mut s, "-");
            fmt::push_dec(&mut s, range.1 as u64);
            fmt::push_text(&mut s, " zone ");
            fmt::push_text(&mut s, zone.as_str());
            if let Some(m) = multicast {
                fmt::push_text(&mut s, " mcast ");
                m.write(&mut s);
            }
            if *flags >= 0x80 {
                fmt::push_text(&mut s, " zone-invalid");
            }
            if (*flags / 64) % 2 == 1 {
                fmt::push_text(&mut s, " use-broadcast");
            }
            if (*flags / 32) % 2 == 1 {
                fmt::push_text(&mut s, " one-zone");
            }
            if let Some(z) = default_zone {
                fmt::push_text(&mut s, " default ");
                fmt::push_text(&mut s, z.as_str());
            }
            assert(s@ =~= self.deep_view().text());
            s
        } else {
            String::new()
        }
    }

    pub fn to_string(&self) -> (r: String)
        ensures
            r@ == self.deep_view().text(),
    {
        match self {
            Zip::Query { nets } => {
                let mut s = fmt::text("query nets ");
                push_numbers(&mut s, nets);
                s
            },
            Zip::Reply { zones, extended } => {
                let mut s = fmt::text(
                    if *extended {
                        "ext-reply "
                    } else {
                        "reply "
                    },
                );
                push_zones(&mut s, zones);
                s
            },
            Zip::GetNetInfo { zone } => {
                let mut s = fmt::text("get-net-info zone ");
                fmt::push_text(&mut s, zone.as_str());
                s
            },
            Zip::NetInfoReply { .. } => self.net_info_text(),
            Zip::Notify => fmt::text("notify"),
        }
    }
}

impl Encode for Zip {
    open spec fn encoding(&self) -> Seq<u8> {
        self.deep_view().bytes()
    }

    fn encode(&self, out: &mut Vec<u8>) {
        match self {
            Zip::Query { nets } => {
                out.push(1);
                out.push(count_of(nets.len()));
                encode_numbers(out, nets);
            },
            Zip::Reply { zones, extended } => {
                out.push(
                    if *extended {
                        8
                    } else {
                        2
                    },
                );
                out.push(count_of(zones.len()));
                encode_zones(out, zones);
            },
            Zip::GetNetInfo { zone } => {
                out.push(5);
                // flags byte plus 4 reserved zero bytes
                out.push(0);
                out.push(0);
                out.push(0);
                out.push(0);
                out.push(0);
                put_pstring(out, zone.as_str());
            },
            Zip::NetInfoReply { flags, range, zone, multicast, default_zone } => {
                out.push(6);
                out.push(*flags);
                push16(out, range.0);
                push16(out, range.1);
                put_pstring(out, zone.as_str());
                match multicast {
                    Some(m) => {
                        out.push(6);
                        push_mac(out, *m);
                    },
                    None => out.push(0),
                }
                if let Some(z) = default_zone {
                    put_pstring(out, z.as_str());
                }
            },
            Zip::Notify => out.push(7),
        }
        assert(out@ =~= old(out)@ + self.encoding());
    }
}

/// Appends numbers for printing.
fn push_numbers(out: &mut String, nets: &Vec<u16>)
    ensures
        final(out)@ == old(out)@ + numbers_text(nets@),
{
    assert(nets@.take(0) =~= Seq::empty());
    assert(out@ =~= old(out)@ + numbers_text(nets@.take(0)));
    let mut i: usize = 0;
    while i < nets.len()
        invariant
            i <= nets@.len(),
            out@ == old(out)@ + numbers_text(nets@.take(i as int)),
        decreases nets@.len() - i,
    {
        fmt::push_text(
            out,
            if i == 0 {
                ""
            } else {
                ", "
            },
        );
        fmt::push_dec(out, nets[i] as u64);
        assert(nets@.take(i + 1).drop_last() =~= nets@.take(i as int));
        i = i + 1;
        assert(out@ =~= old(out)@ + numbers_text(nets@.take(i as int)));
    }
    assert(nets@.take(i as int) =~= nets@);
}

/// Appends network-and-name pairs for printing.
fn push_zones(out: &mut String, zones: &Vec<(u16, String)>)
    ensures
        final(out)@ == old(out)@ + zones_text(zones_view(zones@)),
{
    let ghost zs = zones_view(zones@);
    assert(zs.take(0) =~= Seq::empty());
    assert(out@ =~= old(out)@ + zones_text(zs.take(0)));
    let mut i: usize = 0;
    while i < zones.len()
        invariant
            i <= zones@.len(),
            zs == zones_view(zones@),
            out@ == old(out)@ + zones_text(zs.take(i as int)),
        decreases zones@.len() - i,
    {
        fmt::push_text(
            out,
            if i == 0 {
                ""
            } else {
                ", "
            },
        );
        fmt::push_dec(out, zones[i].0 as u64);
        fmt::push_text(out, "=");
        fmt::push_text(out, zones[i].1.as_str());
        assert(zs.take(i + 1).drop_last() =~= zs.take(i as int));
        i = i + 1;
        assert(out@ =~= old(out)@ + zones_text(zs.take(i as int)));
    }
    assert(zs.take(i as int) =~= zs);
}

/// A count byte.
fn count_of(n: usize) -> (r: u8)
    ensures
        r == count_byte(n as nat),
{
    if n < 255 {
        n as u8
    } else {
        255
    }
}

/// Appends network-and-name pairs back to back.
fn encode_zones(out: &mut Vec<u8>, zones: &Vec<(u16, String)>)
    ensures
        final(out)@ == old(out)@ + zones_bytes(zones_view(zones@)),
{
    let ghost zs = zones_view(zones@);
    assert(zs.take(0) =~= Seq::empty());
    assert(out@ =~= old(out)@ + zones_bytes(zs.take(0)));
    let mut i: usize = 0;
    while i < zones.len()
        invariant
            i <= zones@.len(),
            zs == zones_view(zones@),
            out@ == old(out)@ + zones_bytes(zs.take(i as int)),
        decreases zones@.len() - i,
    {
        push16(out, zones[i].0);
        put_pstring(out, zones[i].1.as_str());
        assert(zs.take(i + 1).drop_last() =~= zs.take(i as int));
        i = i + 1;
        assert(out@ =~= old(out)@ + zones_bytes(zs.take(i as int)));
    }
    assert(zs.take(i as int) =~= zs);
}

// ------------------------------------------------------------ ZIP over ATP

/// A ZIP call that rides on ATP, its function in the user bytes.
#[derive(Debug, PartialEq, Eq)]
pub enum ZipAtp {
    /// "Which zone am I in?"
    GetMyZone,
    /// "List the internet's zones, from this one on."
    GetZoneList { start: u16 },
    /// "List this cable's zones, from this one on."
    GetLocalZones { start: u16 },
    /// The answer to any of them: zone names, and whether they are the last.
    Reply { last: bool, zones: Vec<String> },
}

/// What a ZIP call over ATP says.
pub enum ZipAtpView {
    GetMyZone,
    GetZoneList { start: u16 },
    GetLocalZones { start: u16 },
    Reply { last: bool, zones: Seq<Seq<char>> },
}

/// Exactly `n` names at the front of `p`.
pub open spec fn names_of(p: Seq<u8>, n: nat) -> Option<Seq<Seq<char>>>
    decreases n,
{
    if n == 0 {
        Some(Seq::empty())
    } else {
        match wire::pstring_of(p) {
            None => None,
            Some((name, rest)) => match names_of(rest, (n - 1) as nat) {
                None => None,
                Some(ns) => Some(seq![name] + ns),
            },
        }
    }
}

/// Names for printing, with commas between them.
pub open spec fn names_text(ns: Seq<Seq<char>>) -> Seq<char>
    decreases ns.len(),
{
    if ns.len() == 0 {
        Seq::empty()
    } else {
        names_text(ns.drop_last()) + (if ns.len() == 1 {
            ""@
        } else {
            ", "@
        }) + ns.last()
    }
}

impl ZipAtpView {
    /// A reply: the first user byte is the last-flag, the second is reserved,
    /// the other two count the names in the data.
    pub open spec fn parse_reply(user: Seq<u8>, data: Seq<u8>) -> Option<ZipAtpView> {
        match names_of(data, wire::u16_at(user, 2) as nat) {
            None => None,
            Some(zones) => Some(ZipAtpView::Reply { last: user[0] != 0, zones }),
        }
    }

    pub open spec fn text(self) -> Seq<char> {
        match self {
            ZipAtpView::GetMyZone => "get-my-zone"@,
            ZipAtpView::GetZoneList { start } => "get-zone-list from "@ + fmt::dec(start as nat),
            ZipAtpView::GetLocalZones { start } => "get-local-zones from "@ + fmt::dec(
                start as nat,
            ),
            ZipAtpView::Reply { last, zones } => (if last {
                "zones (last) "@
            } else {
                "zones "@
            }) + names_text(zones),
        }
    }
}

impl DeepView for ZipAtp {
    type V = ZipAtpView;

    open spec fn deep_view(&self) -> ZipAtpView {
        match self {
            ZipAtp::GetMyZone => ZipAtpView::GetMyZone,
            ZipAtp::GetZoneList { start } => ZipAtpView::GetZoneList { start: *start },
            ZipAtp::GetLocalZones { start } => ZipAtpView::GetLocalZones { start: *start },
            ZipAtp::Reply { last, zones } => ZipAtpView::Reply {
                last: *last,
                zones: zones.deep_view(),
            },
        }
    }
}

/// Reads exactly `n` names.
pub fn parse_names(p: &[u8], n: u16) -> (r: Option<Vec<String>>)
    ensures
        match r {
            Some(ns) => names_of(p@, n as nat) == Some(ns.deep_view()),
            None => names_of(p@, n as nat) is None,
        },
{
    let mut names: Vec<String> = Vec::new();
    let mut rest = p;
    let mut i: u16 = 0;
    proof {
        if let Some(ns) = names_of(p@, n as nat) {
            assert(names.deep_view() + ns =~= ns);
        }
    }
    while i < n
        invariant
            i <= n,
            names_of(p@, n as nat) == (match names_of(rest@, (n - i) as nat) {
                None => None,
                Some(ns) => Some(names.deep_view() + ns),
            }),
        decreases n - i,
    {
        match pstring(rest) {
            None => {
                return None;
            },
            Some((name, tail)) => {
                let ghost before = names.deep_view();
                let ghost nv = name@;
                names.push(name);
                rest = tail;
                i = i + 1;
                assert(names.deep_view() =~= before.push(nv));
                proof {
                    if let Some(ns) = names_of(rest@, (n - i) as nat) {
                        assert(before + (seq![nv] + ns) =~= names.deep_view() + ns);
                    }
                }
            },
        }
    }
    assert(names.deep_view() + Seq::empty() =~= names.deep_view());
    Some(names)
}

impl ZipAtp {
    /// Reads the reply to any of the calls. Names beyond the counted ones are
    /// left alone, and the reserved user byte is not looked at.
    pub fn parse_reply(user_bytes: &[u8; 4], data: &[u8]) -> (r: Option<ZipAtp>)
        ensures
            r.deep_view() == ZipAtpView::parse_reply(user_bytes@, data@),
    {
        let count = wire::join16(user_bytes[2], user_bytes[3]);
        let zones = parse_names(data, count)?;
        Some(ZipAtp::Reply { last: user_bytes[0] != 0, zones })
    }

    pub fn to_string(&self) -> (r: String)
        ensures
            r@ == self.deep_view().text(),
    {
        match self {
            ZipAtp::GetMyZone => fmt::text("get-my-zone"),
            ZipAtp::GetZoneList { start } => {
                let mut s = fmt::text("get-zone-list from ");
                fmt::push_dec(&mut s, *start as u64);
                s
            },
            ZipAtp::GetLocalZones { start } => {
                let mut s = fmt::text("get-local-zones from ");
                fmt::push_dec(&mut s, *start as u64);
                s
            },
            ZipAtp::Reply { last, zones } => {
                let mut s = fmt::text(
                    if *last {
                        "zones (last) "
                    } else {
                        "zones "
                    },
                );
                push_names(&mut s, zones);
                s
            },
        }
    }
}

/// Appends names with commas between them.
pub fn push_names(out: &mut String, names: &Vec<String>)
    ensures
        final(out)@ == old(out)@ + names_text(names.deep_view()),
{
    let ghost zs = names.deep_view();
    assert(zs.take(0) =~= Seq::empty());
    assert(out@ =~= old(out)@ + names_text(zs.take(0)));
    let mut i: usize = 0;
    while i < names.len()
        invariant
            i <= names@.len(),
            zs == names.deep_view(),
            out@ == old(out)@ + names_text(zs.take(i as int)),
        decreases names@.len() - i,
    {
        fmt::push_text(
            out,
            if i == 0 {
                ""
            } else {
                ", "
            },
        );
        fmt::push_text(out, names[i].as_str());
        assert(zs.take(i + 1).drop_last() =~= zs.take(i as int));
        i = i + 1;
        assert(out@ =~= old(out)@ + names_text(zs.take(i as int)));
    }
    assert(zs.take(i as int) =~= zs);
}

/// Names with commas between them.
pub fn join_names(names: &Vec<String>) -> (r: String)
    ensures
        r@ == names_text(names.deep_view()),
{
    let mut s = String::new();
    push_names(&mut s, names);
    assert(s@ =~= names_text(names.deep_view()));
    s
}

// --------------------------------------------------------------------- laws

/// Numbers back to back are two bytes each, and read back as themselves.
pub proof fn lemma_numbers_round_trip(ns: Seq<u16>)
    ensures
        numbers_bytes(ns).len() == 2 * ns.len(),
        numbers_of(numbers_bytes(ns)) == ns,
    decreases ns.len(),
{
    broadcast use crate::wire::lemma_be16;

    if ns.len() > 0 {
        let a = ns.drop_last();
        lemma_numbers_round_trip(a);
        let b = numbers_bytes(a);
        let p = numbers_bytes(ns);
        assert forall|i: int| 0 <= i < ns.len() implies numbers_of(p)[i] == ns[i] by {
            if i < a.len() {
                assert(p[2 * i] == b[2 * i] && p[2 * i + 1] == b[2 * i + 1]);
                assert(numbers_of(b)[i] == a[i]);
            } else {
                assert(p[2 * i] == wire::be16(ns.last())[0]);
                assert(p[2 * i + 1] == wire::be16(ns.last())[1]);
            }
        }
        assert(numbers_of(p) =~= ns);
    } else {
        assert(numbers_of(numbers_bytes(ns)) =~= ns);
    }
}

proof fn lemma_zones_bytes_first(zs: Seq<(u16, Seq<char>)>)
    requires
        zs.len() > 0,
    ensures
        zones_bytes(zs) == wire::be16(zs[0].0) + wire::pname(zs[0].1) + zones_bytes(zs.drop_first()),
    decreases zs.len(),
{
    if zs.len() == 1 {
        assert(zs.drop_last() =~= Seq::empty());
        assert(zs.drop_first() =~= Seq::empty());
    } else {
        lemma_zones_bytes_first(zs.drop_last());
        assert(zs.drop_last().drop_first() =~= zs.drop_first().drop_last());
    }
    assert(zones_bytes(zs) =~= wire::be16(zs[0].0) + wire::pname(zs[0].1) + zones_bytes(
        zs.drop_first(),
    ));
}

proof fn lemma_zones_round_trip(zs: Seq<(u16, Seq<char>)>)
    requires
        forall|i: int| 0 <= i < zs.len() ==> wire::name_ok((#[trigger] zs[i]).1),
    ensures
        zones_of(zones_bytes(zs), zs.len()) == Some(zs),
    decreases zs.len(),
{
    broadcast use crate::wire::lemma_be16;

    if zs.len() > 0 {
        lemma_zones_bytes_first(zs);
        let p = zones_bytes(zs);
        let rest = zones_bytes(zs.drop_first());
        assert(p.skip(2) =~= wire::pname(zs[0].1) + rest);
        wire::lemma_pstring_round_trip(zs[0].1, rest);
        assert forall|i: int| 0 <= i < zs.drop_first().len() implies wire::name_ok(
            (#[trigger] zs.drop_first()[i]).1,
        ) by {
            assert(wire::name_ok(zs[i + 1].1));
        }
        lemma_zones_round_trip(zs.drop_first());
        assert(seq![zs[0]] + zs.drop_first() =~= zs);
        assert(p[0] == wire::be16(zs[0].0)[0] && p[1] == wire::be16(zs[0].0)[1]);
    } else {
        assert(zs =~= Seq::empty());
    }
}

proof fn lemma_net_info_round_trip(z: ZipView)
    requires
        z is NetInfoReply,
        z.valid(),
    ensures
        ZipView::parse_net_info(z.bytes()) == Some(z),
{
    broadcast use crate::wire::lemma_be16;

    let p = z.bytes();
    if let ZipView::NetInfoReply { flags, range, zone, multicast, default_zone } = z {
        let dz = match default_zone {
            Some(d) => wire::pname(d),
            None => Seq::empty(),
        };
        let mc = match multicast {
            Some(m) => seq![6u8] + m.bytes(),
            None => seq![0u8],
        };
        assert(p.skip(6) =~= wire::pname(zone) + (mc + dz));
        wire::lemma_pstring_round_trip(zone, mc + dz);
        let rest = mc + dz;
        assert(rest.skip(1 + rest[0]) =~= dz);
        if let Some(m) = multicast {
            assert(rest.subrange(1, 7) =~= m.bytes());
        }
        if let Some(d) = default_zone {
            assert(dz =~= wire::pname(d) + Seq::empty());
            wire::lemma_pstring_round_trip(d, Seq::empty());
        }
    }
}

/// Law: a ZIP packet reads back as itself.
pub proof fn law_round_trip(z: ZipView)
    requires
        z.valid(),
    ensures
        ZipView::parse(z.bytes()) == Some(z),
{
    broadcast use crate::wire::lemma_be16;

    let p = z.bytes();
    match z {
        ZipView::Query { nets } => {
            lemma_numbers_round_trip(nets);
            assert(p.subrange(2, 2 + 2 * p[1]) =~= numbers_bytes(nets));
        },
        ZipView::Reply { zones, extended } => {
            assert(p.skip(2) =~= zones_bytes(zones));
            lemma_zones_round_trip(zones);
        },
        ZipView::GetNetInfo { zone } => {
            assert(p.skip(6) =~= wire::pname(zone) + Seq::empty());
            wire::lemma_pstring_round_trip(zone, Seq::empty());
        },
        ZipView::NetInfoReply { .. } => {
            lemma_net_info_round_trip(z);
        },
        ZipView::Notify => {},
    }
}

// --------------------------------------------------------------- multicast

/// A name's bytes with its ASCII letters in upper case.
pub open spec fn upper(b: Seq<u8>) -> Seq<u8> {
    Seq::new(
        b.len(),
        |i: int|
            if 0x61 <= b[i] <= 0x7a {
                (b[i] - 32) as u8
            } else {
                b[i]
            },
    )
}

/// Where an EtherTalk zone is reached: one of 253 addresses, chosen by the
/// checksum of the zone's name in upper case.
pub open spec fn multicast_of(zone: Seq<char>) -> MacAddr {
    MacAddr(
        0x09,
        0x00,
        0x07,
        0x00,
        0x00,
        (checksum_of(upper(wire::name_bytes(zone))) % 253) as u8,
    )
}

/// The multicast address of an EtherTalk zone.
pub fn zone_multicast(zone: &str) -> (r: MacAddr)
    ensures
        r == multicast_of(zone@),
{
    let bytes = zone.as_bytes();
    let ghost name = wire::name_bytes(zone@);
    let n: usize = if bytes.len() <= wire::MAX_NAME {
        bytes.len()
    } else {
        wire::MAX_NAME
    };
    let mut b: Vec<u8> = Vec::new();
    let mut i: usize = 0;
    while i < n
        invariant
            i <= n <= bytes@.len(),
            n == name.len(),
            forall|j: int| 0 <= j < n ==> name[j] == #[trigger] bytes@[j],
            b@ == upper(name).take(i as int),
        decreases n - i,
    {
        let c = bytes[i];
        b.push(
            if 0x61 <= c && c <= 0x7a {
                c - 32
            } else {
                c
            },
        );
        i = i + 1;
        assert(b@ =~= upper(name).take(i as int));
    }
    assert(b@ =~= upper(name));
    let sum = checksum(b.as_slice());
    MacAddr(0x09, 0x00, 0x07, 0x00, 0x00, (sum % 253) as u8)
}

/// Law: every spelling of a zone's name leads to one multicast address.
pub proof fn law_spellings_share_a_multicast(a: Seq<char>, b: Seq<char>)
    requires
        wire::name_ok(a),
        wire::name_ok(b),
        crate::names::same_name(a, b),
    ensures
        multicast_of(a) == multicast_of(b),
{
    wire::lemma_name_bytes(a);
    wire::lemma_name_bytes(b);
    let (x, y) = (wire::name_bytes(a), wire::name_bytes(b));
    let (la, lb) = (crate::names::lower(a), crate::names::lower(b));
    assert(la.len() == a.len() && lb.len() == b.len());
    assert forall|i: int| 0 <= i < x.len() implies upper(x)[i] == upper(y)[i] by {
        reveal(wire::name_ok);
        assert(la[i] == lb[i]);
        assert(x[i] == a[i] as u8 && y[i] == b[i] as u8);
        assert(' ' <= a[i] <= '~' && ' ' <= b[i] <= '~');
    }
    assert(upper(x) =~= upper(y));
}

} // verus!
