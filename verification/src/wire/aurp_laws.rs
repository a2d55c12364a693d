//! What the tunnel codec keeps: whatever is sent reads back as itself.

use vstd::prelude::*;

use crate::wire;
use crate::wire::aurp;
use crate::wire::aurp::{AurpView, CmdView, Di, EventTuple};
use crate::wire::rtmp;
use crate::wire::zip;

verus! {

/// Law: a domain identifier reads back as itself and leaves what followed it.
pub proof fn law_di_round_trip(d: Di, rest: Seq<u8>)
    ensures
        Di::spec_parse(d.bytes() + rest) == Some((d, rest)),
{
    let p = d.bytes() + rest;
    match d {
        Di::Null => {
            assert(p.skip(2) =~= rest);
        },
        Di::Ip(a) => {
            assert(p.skip(8) =~= rest);
        },
    }
}

/// Law: an event reads back as itself and leaves what followed it.
pub proof fn law_event_round_trip(e: EventTuple, rest: Seq<u8>)
    requires
        e.valid(),
    ensures
        EventTuple::spec_parse(e.bytes() + rest) == Some((e, rest)),
{
    broadcast use crate::wire::lemma_be16;

    let p = e.bytes() + rest;
    if e.code == 0 {
        assert(p.skip(1) =~= rest);
    } else if e.tuple.extended {
        assert(p.skip(6) =~= rest);
    } else {
        assert(p.skip(4) =~= rest);
    }
}

proof fn lemma_events_first(es: Seq<EventTuple>)
    requires
        es.len() > 0,
    ensures
        aurp::events_bytes(es) == es[0].bytes() + aurp::events_bytes(es.drop_first()),
    decreases es.len(),
{
    if es.len() == 1 {
        assert(es.drop_last() =~= Seq::empty());
        assert(es.drop_first() =~= Seq::empty());
    } else {
        lemma_events_first(es.drop_last());
        assert(es.drop_last().drop_first() =~= es.drop_first().drop_last());
    }
    assert(aurp::events_bytes(es) =~= es[0].bytes() + aurp::events_bytes(es.drop_first()));
}

proof fn lemma_events_round_trip(es: Seq<EventTuple>)
    requires
        forall|i: int| 0 <= i < es.len() ==> (#[trigger] es[i]).valid(),
    ensures
        aurp::events_of(aurp::events_bytes(es)) == Some(es),
    decreases es.len(),
{
    if es.len() > 0 {
        let tail = es.drop_first();
        lemma_events_first(es);
        law_event_round_trip(es[0], aurp::events_bytes(tail));
        assert forall|i: int| 0 <= i < tail.len() implies (#[trigger] tail[i]).valid() by {
            assert(es[i + 1].valid());
        }
        lemma_events_round_trip(tail);
        assert(seq![es[0]] + tail =~= es);
    } else {
        assert(es =~= Seq::empty());
    }
}

proof fn lemma_names_first(ns: Seq<Seq<char>>)
    requires
        ns.len() > 0,
    ensures
        aurp::names_bytes(ns) == wire::pname(ns[0]) + aurp::names_bytes(ns.drop_first()),
    decreases ns.len(),
{
    if ns.len() == 1 {
        assert(ns.drop_last() =~= Seq::empty());
        assert(ns.drop_first() =~= Seq::empty());
    } else {
        lemma_names_first(ns.drop_last());
        assert(ns.drop_last().drop_first() =~= ns.drop_first().drop_last());
    }
    assert(aurp::names_bytes(ns) =~= wire::pname(ns[0]) + aurp::names_bytes(ns.drop_first()));
}

proof fn lemma_names_round_trip(ns: Seq<Seq<char>>)
    requires
        forall|i: int| 0 <= i < ns.len() ==> wire::name_ok(#[trigger] ns[i]),
    ensures
        aurp::all_names(aurp::names_bytes(ns)) == Some(ns),
    decreases ns.len(),
{
    if ns.len() > 0 {
        let tail = ns.drop_first();
        lemma_names_first(ns);
        wire::lemma_pstring_round_trip(ns[0], aurp::names_bytes(tail));
        assert forall|i: int| 0 <= i < tail.len() implies wire::name_ok(#[trigger] tail[i]) by {
            assert(wire::name_ok(ns[i + 1]));
        }
        lemma_names_round_trip(tail);
        assert(seq![ns[0]] + tail =~= ns);
    } else {
        assert(ns =~= Seq::empty());
    }
}

/// One option as it travels.
spec fn option_bytes(o: (u8, Seq<u8>)) -> Seq<u8> {
    seq![((1 + o.1.len()) % 256) as u8, o.0] + o.1
}

proof fn lemma_options_first(os: Seq<(u8, Seq<u8>)>)
    requires
        os.len() > 0,
    ensures
        aurp::options_bytes(os) == option_bytes(os[0]) + aurp::options_bytes(os.drop_first()),
    decreases os.len(),
{
    if os.len() == 1 {
        assert(os.drop_last() =~= Seq::empty());
        assert(os.drop_first() =~= Seq::empty());
    } else {
        lemma_options_first(os.drop_last());
        assert(os.drop_last().drop_first() =~= os.drop_first().drop_last());
    }
    assert(aurp::options_bytes(os) =~= option_bytes(os[0]) + aurp::options_bytes(os.drop_first()));
}

proof fn lemma_options_round_trip(os: Seq<(u8, Seq<u8>)>)
    requires
        aurp::options_valid(os),
    ensures
        aurp::options_of(aurp::options_bytes(os), os.len()) == Some(os),
    decreases os.len(),
{
    if os.len() > 0 {
        let tail = os.drop_first();
        lemma_options_first(os);
        assert forall|i: int| 0 <= i < tail.len() implies (#[trigger] tail[i]).1.len() <= 254 by {
            assert(os[i + 1].1.len() <= 254);
        }
        lemma_options_round_trip(tail);
        let p = aurp::options_bytes(os);
        assert(os[0].1.len() <= 254);
        assert(p[0] == 1 + os[0].1.len());
        assert(p.skip(1 + p[0]) =~= aurp::options_bytes(tail));
        assert(p.subrange(2, 1 + p[0]) =~= os[0].1);
        assert(seq![os[0]] + tail =~= os);
    } else {
        assert(os =~= Seq::empty());
    }
}

proof fn lemma_option_list(os: Seq<(u8, Seq<u8>)>, word: u16)
    requires
        aurp::options_valid(os),
    ensures
        ({
            let b = wire::be16(word) + aurp::option_list(os);
            &&& b.len() >= 3
            &&& wire::u16_at(b, 0) == word
            &&& aurp::options_of(b.skip(3), b[2] as nat) == Some(os)
        }),
{
    broadcast use crate::wire::lemma_be16;

    let b = wire::be16(word) + aurp::option_list(os);
    assert(b.skip(3) =~= aurp::options_bytes(os));
    lemma_options_round_trip(os);
}

// -------------------------------------------------------------- zone tuples

/// Where a name first stands.
proof fn lemma_first_named(zs: Seq<(u16, Seq<char>)>, name: Seq<char>)
    requires
        aurp::named(zs, name),
    ensures
        0 <= aurp::first_named(zs, name) < zs.len(),
        zs[aurp::first_named(zs, name)].1 == name,
        !aurp::named(zs.take(aurp::first_named(zs, name)), name),
    decreases zs.len(),
{
    let a = zs.drop_last();
    if aurp::named(a, name) {
        lemma_first_named(a, name);
        assert(a.take(aurp::first_named(a, name)) =~= zs.take(aurp::first_named(a, name)));
    } else {
        let i = choose|i: int| 0 <= i < zs.len() && (#[trigger] zs[i]).1 == name;
        if i < a.len() {
            assert(a[i].1 == name);
        }
        assert(zs.take(zs.len() - 1) =~= a);
    }
}

/// The tuples before one are a prefix of them all.
proof fn lemma_zone_prefix(zs: Seq<(u16, Seq<char>)>, i: int)
    requires
        0 <= i <= zs.len(),
    ensures
        aurp::zone_bytes(zs.take(i)).len() <= aurp::zone_bytes(zs).len(),
        aurp::zone_bytes(zs).take(aurp::zone_bytes(zs.take(i)).len() as int) == aurp::zone_bytes(
            zs.take(i),
        ),
    decreases zs.len(),
{
    if i == zs.len() {
        assert(zs.take(i) =~= zs);
        assert(aurp::zone_bytes(zs).take(aurp::zone_bytes(zs).len() as int) =~= aurp::zone_bytes(
            zs,
        ));
    } else {
        let a = zs.drop_last();
        assert(a.take(i) =~= zs.take(i));
        lemma_zone_prefix(a, i);
        let n = aurp::zone_bytes(zs.take(i)).len() as int;
        assert(aurp::zone_bytes(zs).take(n) =~= aurp::zone_bytes(a).take(n));
    }
}

/// The tuples from `i` on: the one at `i`, then the ones after it.
proof fn lemma_zone_step(zs: Seq<(u16, Seq<char>)>, i: int)
    requires
        0 <= i < zs.len(),
    ensures
        ({
            let t = aurp::zone_bytes(zs);
            let at = aurp::zone_bytes(zs.take(i)).len() as int;
            let next = aurp::zone_bytes(zs.take(i + 1)).len() as int;
            &&& at <= next <= t.len()
            &&& t.skip(at) == wire::be16(zs[i].0) + aurp::zone_ref(zs.take(i), zs[i].1) + t.skip(
                next,
            )
        }),
{
    let t = aurp::zone_bytes(zs);
    let p = aurp::zone_bytes(zs.take(i));
    let q = aurp::zone_bytes(zs.take(i + 1));
    lemma_zone_prefix(zs, i);
    lemma_zone_prefix(zs, i + 1);
    assert(zs.take(i + 1).drop_last() =~= zs.take(i));
    assert(zs.take(i + 1).last() == zs[i]);
    let piece = wire::be16(zs[i].0) + aurp::zone_ref(zs.take(i), zs[i].1);
    assert(q =~= p + piece);
    assert(t =~= q + t.skip(q.len() as int)) by {
        assert(t =~= t.take(q.len() as int) + t.skip(q.len() as int));
    }
    assert(t.skip(p.len() as int) =~= piece + t.skip(q.len() as int));
}

/// Every tuple from `i` on reads back, whether it spells its name out or
/// points at it.
proof fn lemma_zone_parse(zs: Seq<(u16, Seq<char>)>, b: Seq<u8>, i: int)
    requires
        0 <= i <= zs.len(),
        b.len() >= 4,
        b.skip(4) == aurp::zone_bytes(zs),
        aurp::zone_bytes(zs).len() < 0x8000,
        forall|j: int| 0 <= j < zs.len() ==> wire::name_ok((#[trigger] zs[j]).1),
    ensures
        aurp::zone_tuples(
            b,
            aurp::zone_bytes(zs).skip(aurp::zone_bytes(zs.take(i)).len() as int),
        ) == Some(zs.skip(i)),
    decreases zs.len() - i,
{
    broadcast use crate::wire::lemma_be16;

    let t = aurp::zone_bytes(zs);
    let at = aurp::zone_bytes(zs.take(i)).len() as int;
    let rest = t.skip(at);
    if i == zs.len() {
        assert(zs.take(i) =~= zs);
        assert(rest =~= Seq::empty());
        assert(zs.skip(i) =~= Seq::empty());
    } else {
        let next = aurp::zone_bytes(zs.take(i + 1)).len() as int;
        let net = zs[i].0;
        let name = zs[i].1;
        lemma_zone_step(zs, i);
        lemma_zone_parse(zs, b, i + 1);
        assert(wire::name_ok(zs[i].1));
        wire::lemma_name_bytes(name);
        assert(rest[0] == wire::be16(net)[0] && rest[1] == wire::be16(net)[1]);
        assert(wire::u16_at(rest, 0) == net);
        if aurp::named(zs.take(i), name) {
            lemma_first_named(zs.take(i), name);
            let k = aurp::first_named(zs.take(i), name);
            assert(zs.take(i).take(k) =~= zs.take(k));
            let off = aurp::zone_bytes(zs.take(k)).len() as int;
            lemma_zone_prefix(zs, k);
            assert(off % 0x8000 == off);
            let w = (0x8000 + off) as u16;
            assert(rest[2] == wire::be16(w)[0] && rest[3] == wire::be16(w)[1]);
            assert(rest[2] >= 0x80);
            assert(wire::u16_of((rest[2] - 0x80) as u8, rest[3]) == off);
            lemma_zone_step(zs, k);
            let knext = aurp::zone_bytes(zs.take(k + 1)).len() as int;
            let from = 6 + off;
            assert(b.skip(from) =~= t.skip(off).skip(2));
            assert(t.skip(off).skip(2) =~= wire::pname(name) + t.skip(knext));
            wire::lemma_pstring_round_trip(name, t.skip(knext));
            assert(b.skip(from)[0] == name.len());
            assert(b[from] == name.len());
            assert(aurp::name_at(b, from) == Some(name));
            assert(rest.skip(4) =~= t.skip(next));
        } else {
            assert(rest[2] == wire::pname(name)[0]);
            assert(rest.skip(2) =~= wire::pname(name) + t.skip(next));
            wire::lemma_pstring_round_trip(name, t.skip(next));
        }
        assert(seq![zs[i]] + zs.skip(i + 1) =~= zs.skip(i));
    }
}

/// Law: a zone list reads back as itself, however many of its names are
/// repeats written as offsets.
pub proof fn law_zones_round_trip(extended: Option<u16>, zones: Seq<(u16, Seq<char>)>)
    requires
        (CmdView::ZiRsp { extended, zones }).valid(),
    ensures
        ({
            let c = CmdView::ZiRsp { extended, zones };
            let sub: u16 = if extended is Some {
                2
            } else {
                1
            };
            CmdView::parse_zi_rsp(sub, c.body()) == Some(c)
        }),
{
    broadcast use crate::wire::lemma_be16;

    let b = (CmdView::ZiRsp { extended, zones }).body();
    assert(b.skip(4) =~= aurp::zone_bytes(zones));
    assert(zones.take(0) =~= Seq::empty());
    assert(b.skip(4).skip(0) =~= b.skip(4));
    lemma_zone_parse(zones, b, 0);
    assert(zones.skip(0) =~= zones);
    if let Some(total) = extended {
        assert(b[2] == wire::be16(total)[0] && b[3] == wire::be16(total)[1]);
    }
}

// ----------------------------------------------------------------- commands

proof fn lemma_gzn_rsp_round_trip(zone: Seq<char>, tuples: Option<Seq<rtmp::NetworkTuple>>)
    requires
        (CmdView::GznRsp { zone, tuples }).valid(),
    ensures
        CmdView::parse_gzn_rsp((CmdView::GznRsp { zone, tuples }).body().skip(2)) == Some(
            CmdView::GznRsp { zone, tuples },
        ),
{
    broadcast use crate::wire::lemma_be16;

    let rest = (CmdView::GznRsp { zone, tuples }).body().skip(2);
    match tuples {
        None => {
            let tail = wire::be16(0xffff);
            assert(rest =~= wire::pname(zone) + tail);
            wire::lemma_pstring_round_trip(zone, tail);
        },
        Some(ts) => {
            let tail = wire::be16((ts.len() % 0x10000) as u16) + rtmp::tuples_bytes(ts, 0);
            assert(rest =~= wire::pname(zone) + tail);
            wire::lemma_pstring_round_trip(zone, tail);
            assert(tail.skip(2) =~= rtmp::tuples_bytes(ts, 0));
            assert(wire::u16_at(tail, 0) == ts.len());
            rtmp::law_tuples_round_trip(ts, 0);
        },
    }
}

proof fn lemma_sub_round_trip(c: CmdView)
    requires
        c.valid(),
        c.code() == 6 || c.code() == 7,
    ensures
        CmdView::parse_sub(c.code(), c.flags(), c.body()) == Some(c),
{
    broadcast use crate::wire::lemma_be16;

    let b = c.body();
    match c {
        CmdView::ZiReq { nets } => {
            zip::lemma_numbers_round_trip(nets);
            assert(b.skip(2) =~= zip::numbers_bytes(nets));
            assert(wire::u16_at(b, 0) == 1);
        },
        CmdView::ZiRsp { extended, zones } => {
            law_zones_round_trip(extended, zones);
            if extended is Some {
                assert(wire::u16_at(b, 0) == 2);
            } else {
                assert(wire::u16_at(b, 0) == 1);
            }
        },
        CmdView::GznReq { zone } => {
            assert(b.skip(2) =~= wire::pname(zone) + Seq::empty());
            wire::lemma_pstring_round_trip(zone, Seq::empty());
            assert(wire::u16_at(b, 0) == 3);
        },
        CmdView::GznRsp { zone, tuples } => {
            lemma_gzn_rsp_round_trip(zone, tuples);
            assert(wire::u16_at(b, 0) == 3);
        },
        CmdView::GdzlReq { start } => {
            assert(b.skip(2) =~= wire::be16(start));
            assert(wire::u16_at(b, 0) == 4);
        },
        CmdView::GdzlRsp { last, start, zones } => {
            wire::lemma_signed(0, start);
            lemma_names_round_trip(zones);
            let rest = b.skip(2);
            assert(rest =~= wire::be16(wire::unsigned(start)) + aurp::names_bytes(zones));
            assert(rest.skip(2) =~= aurp::names_bytes(zones));
            assert(wire::u16_at(rest, 0) == wire::unsigned(start));
            assert(wire::u16_at(b, 0) == 4);
        },
        _ => {},
    }
}

/// Law: a command reads back as itself from its code, flags and body.
pub proof fn law_command_round_trip(c: CmdView)
    requires
        c.valid(),
    ensures
        CmdView::parse(c.code(), c.flags(), c.body()) == Some(c),
{
    broadcast use crate::wire::lemma_be16;

    match c {
        CmdView::RiRsp { tuples, .. } => {
            rtmp::law_tuples_round_trip(tuples, 0);
        },
        CmdView::RiUpd { events } => {
            lemma_events_round_trip(events);
        },
        CmdView::Rd { code } => {
            wire::lemma_signed(0, code);
        },
        CmdView::OpenReq { version, options, .. } => {
            lemma_option_list(options, version);
        },
        CmdView::OpenRsp { rate_or_err, options, .. } => {
            wire::lemma_signed(0, rate_or_err);
            lemma_option_list(options, wire::unsigned(rate_or_err));
        },
        CmdView::RiReq { .. } => {},
        CmdView::RiAck { .. } => {},
        CmdView::Tickle => {},
        CmdView::TickleAck => {},
        _ => {
            lemma_sub_round_trip(c);
        },
    }
}

/// What follows the two identifiers: version, reserved bytes, packet type.
spec fn after_ids(typ: u16, body: Seq<u8>) -> Seq<u8> {
    wire::be16(aurp::VERSION) + seq![0u8, 0] + wire::be16(typ) + body
}

proof fn lemma_after_ids(typ: u16, body: Seq<u8>)
    ensures
        ({
            let r = after_ids(typ, body);
            &&& r.len() >= 6
            &&& wire::u16_at(r, 0) == aurp::VERSION
            &&& wire::u16_at(r, 4) == typ
            &&& r.skip(6) == body
        }),
{
    broadcast use crate::wire::lemma_be16;

    assert(after_ids(typ, body).skip(6) =~= body);
}

/// The routing header and the command.
spec fn routing_bytes(conn: u16, seq: u16, cmd: CmdView) -> Seq<u8> {
    wire::be16(conn) + wire::be16(seq) + wire::be16(cmd.code()) + wire::be16(cmd.flags())
        + cmd.body()
}

proof fn lemma_routing_round_trip(dh: aurp::DomainHeader, conn: u16, seq: u16, cmd: CmdView)
    requires
        cmd.valid(),
    ensures
        AurpView::parse_body(dh, aurp::TYPE_ROUTING, routing_bytes(conn, seq, cmd)) == Some(
            AurpView::Routing { dh, conn, seq, cmd },
        ),
{
    law_command_round_trip(cmd);
    let body = routing_bytes(conn, seq, cmd);
    assert(wire::u16_at(body, 0) == conn && wire::u16_at(body, 2) == seq && wire::u16_at(body, 4)
        == cmd.code() && wire::u16_at(body, 6) == cmd.flags() && body.skip(8) =~= cmd.body()) by {
        broadcast use crate::wire::lemma_be16;

    }
}

/// Law: a packet on the tunnel reads back as itself.
pub proof fn law_round_trip(a: AurpView)
    requires
        a.valid(),
    ensures
        AurpView::parse(a.bytes()) == Some(a),
{
    let p = a.bytes();
    let dh = a.header();
    let (typ, body) = match a {
        AurpView::Data { ddp, .. } => (aurp::TYPE_DATA, ddp),
        AurpView::Routing { conn, seq, cmd, .. } => (
            aurp::TYPE_ROUTING,
            routing_bytes(conn, seq, cmd),
        ),
    };
    let r2 = after_ids(typ, body);
    let r1 = dh.src.bytes() + r2;
    assert(p =~= dh.dst.bytes() + r1);
    law_di_round_trip(dh.dst, r1);
    law_di_round_trip(dh.src, r2);
    lemma_after_ids(typ, body);
    if let AurpView::Routing { conn, seq, cmd, .. } = a {
        lemma_routing_round_trip(dh, conn, seq, cmd);
    }
}

} // verus!
