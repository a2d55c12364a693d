//! Splitting what goes down a tunnel into packets that do not fragment.

use vstd::prelude::*;
use vstd::string::*;
use vstd::utf8::*;

use crate::router::table::{Tables, TablesView};
use crate::wire;
use crate::wire::aurp::{zone_bytes, zone_ref, CmdView};
use crate::wire::rtmp::tuples_bytes;
use crate::wire::zip::zones_view;
use crate::wire::{low16, Cmd, NetworkTuple};

verus! {

/// Body bytes an RI-Rsp, ZI-Rsp or ZI-Req is split at, so nothing fragments.
pub const MAX_BODY: usize = 1400;

/// Bytes of zone tuples one ZI-Rsp holds, behind its subcode and count.
pub const MAX_ZONES: usize = 1396;

/// Networks one ZI-Req asks about: two body bytes each, behind the subcode.
pub const MAX_ASKED: usize = 699;

// ------------------------------------------------------------ RI-Rsp pages

/// How many body bytes a tuple takes.
pub open spec fn tuple_size(t: NetworkTuple) -> nat {
    if t.extended {
        6
    } else {
        3
    }
}

/// Pages under way: the last one still has room after its `used` bytes.
pub struct TuplePages {
    pub pages: Seq<Seq<NetworkTuple>>,
    pub used: nat,
}

/// An export in pages of at most `MAX_BODY` body bytes, each filled before the
/// next is begun. There is always one page, so a router with nothing to export
/// still says so.
pub open spec fn tuple_pages(ts: Seq<NetworkTuple>) -> TuplePages
    decreases ts.len(),
{
    if ts.len() == 0 {
        TuplePages { pages: seq![Seq::empty()], used: 0 }
    } else {
        let p = tuple_pages(ts.drop_last());
        let t = ts.last();
        if p.used + tuple_size(t) > MAX_BODY {
            TuplePages { pages: p.pages.push(seq![t]), used: tuple_size(t) }
        } else {
            TuplePages {
                pages: p.pages.update(p.pages.len() - 1, p.pages.last().push(t)),
                used: p.used + tuple_size(t),
            }
        }
    }
}

/// Split an export into RI-Rsp pages of at most `MAX_BODY` body bytes. Always
/// at least one page, so a router with nothing to export still says so.
pub fn split_tuples(tuples: Vec<NetworkTuple>) -> (r: Vec<Vec<NetworkTuple>>)
    ensures
        pages_view(r@) == tuple_pages(tuples@).pages,
{
    let ghost ts = tuples@;
    let mut done: Vec<Vec<NetworkTuple>> = Vec::new();
    let mut page: Vec<NetworkTuple> = Vec::new();
    let mut used: usize = 0;
    assert(ts.take(0) =~= Seq::empty());
    assert(pages_view(done@).push(page@) =~= seq![Seq::empty()]);
    let mut i: usize = 0;
    while i < tuples.len()
        invariant
            i <= tuples@.len(),
            ts == tuples@,
            pages_view(done@).push(page@) == tuple_pages(ts.take(i as int)).pages,
            used == tuple_pages(ts.take(i as int)).used,
            used <= MAX_BODY,
        decreases tuples@.len() - i,
    {
        let t = tuples[i];
        let ghost before = pages_view(done@).push(page@);
        assert(ts.take(i + 1).drop_last() =~= ts.take(i as int));
        assert(ts.take(i + 1).last() == t);
        let n: usize = if t.extended {
            6
        } else {
            3
        };
        if used + n > MAX_BODY {
            let ghost pv = page@;
            let ghost dv = pages_view(done@);
            done.push(page);
            assert(pages_view(done@) =~= dv.push(pv));
            page = Vec::new();
            page.push(t);
            used = n;
            assert(page@ =~= seq![t]);
        } else {
            page.push(t);
            used = used + n;
            assert(pages_view(done@).push(page@) =~= before.update(
                before.len() - 1,
                before.last().push(t),
            ));
        }
        i = i + 1;
    }
    assert(ts.take(i as int) =~= ts);
    let ghost dv = pages_view(done@);
    let ghost pv = page@;
    done.push(page);
    assert(pages_view(done@) =~= dv.push(pv));
    done
}

/// Pages as sequences.
pub open spec fn pages_view(p: Seq<Vec<NetworkTuple>>) -> Seq<Seq<NetworkTuple>> {
    Seq::new(p.len(), |i: int| p[i]@)
}

/// Tuples take the bytes their sizes say.
proof fn lemma_tuples_size(ts: Seq<NetworkTuple>, t: NetworkTuple)
    ensures
        tuples_bytes(ts.push(t), 0).len() == tuples_bytes(ts, 0).len() + tuple_size(t),
{
    assert(ts.push(t).drop_last() =~= ts);
}

/// Law: the pages of an export hold exactly its tuples, in order; none is
/// longer than `MAX_BODY` bytes, and there is at least one.
pub proof fn law_tuple_pages(ts: Seq<NetworkTuple>)
    ensures
        tuple_pages(ts).pages.len() > 0,
        tuple_pages(ts).pages.flatten() == ts,
        tuple_pages(ts).used == tuples_bytes(tuple_pages(ts).pages.last(), 0).len(),
        forall|i: int|
            0 <= i < tuple_pages(ts).pages.len() ==> tuples_bytes(
                #[trigger] tuple_pages(ts).pages[i],
                0,
            ).len() <= MAX_BODY,
    decreases ts.len(),
{
    if ts.len() == 0 {
        let p = tuple_pages(ts).pages;
        assert(p == seq![Seq::<NetworkTuple>::empty()]);
        p.lemma_flatten_one_element();
        assert(p.flatten() =~= ts);
    } else {
        let a = tuple_pages(ts.drop_last());
        let b = tuple_pages(ts);
        let t = ts.last();
        law_tuple_pages(ts.drop_last());
        if a.used + tuple_size(t) > MAX_BODY {
            a.pages.lemma_flatten_push(seq![t]);
            lemma_tuples_size(Seq::empty(), t);
            assert(Seq::<NetworkTuple>::empty().push(t) =~= seq![t]);
            assert(b.pages.last() =~= seq![t]);
            assert(b.pages.flatten() == a.pages.flatten() + seq![t]);
            assert(ts.drop_last() + seq![t] =~= ts);
            assert forall|i: int| 0 <= i < b.pages.len() implies tuples_bytes(
                #[trigger] b.pages[i],
                0,
            ).len() <= MAX_BODY by {
                if i < a.pages.len() {
                    assert(b.pages[i] == a.pages[i]);
                }
            }
            assert(b.pages.flatten() =~= ts);
        } else {
            let l = a.pages.last();
            let head = a.pages.drop_last();
            lemma_tuples_size(l, t);
            assert(a.pages =~= head.push(l));
            assert(b.pages =~= head.push(l.push(t)));
            head.lemma_flatten_push(l);
            head.lemma_flatten_push(l.push(t));
            assert(a.pages.flatten() == head.flatten() + l);
            assert(b.pages.flatten() == head.flatten() + l.push(t));
            assert(head.flatten() + l.push(t) =~= (head.flatten() + l).push(t));
            assert(ts.drop_last().push(t) =~= ts);
            assert(b.pages.flatten() =~= ts);
            assert forall|i: int| 0 <= i < b.pages.len() implies tuples_bytes(
                #[trigger] b.pages[i],
                0,
            ).len() <= MAX_BODY by {
                if i < head.len() {
                    assert(b.pages[i] == a.pages[i]);
                } else {
                    assert(b.pages[i] == l.push(t));
                    assert(tuples_bytes(a.pages[i], 0).len() <= MAX_BODY);
                }
            }
        }
    }
}

// ------------------------------------------------------------ ZI-Rsp pages

/// How many body bytes a zone tuple takes at most: the network, the length
/// byte and the name, spelled out.
pub open spec fn name_size(name: Seq<char>) -> nat {
    3 + encode_utf8(name).len()
}

/// The names of one network, spelled out.
pub open spec fn names_size(names: Seq<Seq<char>>) -> nat
    decreases names.len(),
{
    if names.len() == 0 {
        0
    } else {
        names_size(names.drop_last()) + name_size(names.last())
    }
}

/// The zone tuples of one network.
pub open spec fn zone_entries(net: u16, names: Seq<Seq<char>>) -> Seq<(u16, Seq<char>)> {
    Seq::new(names.len(), |i: int| (net, names[i]))
}

/// One network's list being spread over packets of its own.
pub struct NameChunks {
    pub done: Seq<Seq<Seq<char>>>,
    pub chunk: Seq<Seq<char>>,
    pub used: nat,
}

/// A list too long for one packet, in runs of at most `MAX_ZONES` bytes each; a
/// name longer than that is a run of its own.
pub open spec fn name_chunks(names: Seq<Seq<char>>) -> NameChunks
    decreases names.len(),
{
    if names.len() == 0 {
        NameChunks { done: Seq::empty(), chunk: Seq::empty(), used: 0 }
    } else {
        let c = name_chunks(names.drop_last());
        let n = names.last();
        if c.used + name_size(n) > MAX_ZONES && c.chunk.len() > 0 {
            NameChunks { done: c.done.push(c.chunk), chunk: seq![n], used: name_size(n) }
        } else {
            NameChunks { done: c.done, chunk: c.chunk.push(n), used: c.used + name_size(n) }
        }
    }
}

/// The runs of a list as packets. Subcode 2's count is the whole list's rather
/// than the packet's.
pub open spec fn long_list(net: u16, names: Seq<Seq<char>>) -> Seq<CmdView> {
    let c = name_chunks(names);
    let all = if c.chunk.len() > 0 {
        c.done.push(c.chunk)
    } else {
        c.done
    };
    list_packets(net, (names.len() % 0x10000) as u16, all)
}

/// One packet for each run.
pub open spec fn list_packets(net: u16, count: u16, runs: Seq<Seq<Seq<char>>>) -> Seq<CmdView> {
    Seq::new(
        runs.len(),
        |i: int|
            CmdView::ZiRsp { extended: Some(count), zones: zone_entries(net, runs[i]) },
    )
}

/// Packets under way: those that are full, and the one being filled.
pub struct ZonePages {
    pub out: Seq<CmdView>,
    pub page: Seq<(u16, Seq<char>)>,
    pub used: nat,
}

impl ZonePages {
    /// With the packet being filled sent off, if there is anything in it.
    pub open spec fn flushed(self) -> Seq<CmdView> {
        if self.page.len() > 0 {
            self.out.push(CmdView::ZiRsp { extended: None, zones: self.page })
        } else {
            self.out
        }
    }

    /// With one more network. A list that overflows a packet gets packets of
    /// its own; any other goes whole into the packet being filled, or into a
    /// fresh one if it does not fit.
    pub open spec fn with(self, net: u16, names: Seq<Seq<char>>) -> ZonePages {
        let total = names_size(names);
        if names.len() == 0 {
            self
        } else if total > MAX_ZONES {
            ZonePages {
                out: self.flushed() + long_list(net, names),
                page: Seq::empty(),
                used: 0,
            }
        } else if self.used + total > MAX_ZONES && self.page.len() > 0 {
            ZonePages { out: self.flushed(), page: zone_entries(net, names), used: total }
        } else {
            ZonePages {
                out: self.out,
                page: self.page + zone_entries(net, names),
                used: self.used + total,
            }
        }
    }
}

/// The zones held for a network.
pub open spec fn names_held(v: TablesView, net: u16) -> Seq<Seq<char>> {
    if v.zones.contains_key(net) {
        v.zones[net].1.names
    } else {
        Seq::empty()
    }
}

pub open spec fn zone_pages(nets: Seq<u16>, v: TablesView) -> ZonePages
    decreases nets.len(),
{
    if nets.len() == 0 {
        ZonePages { out: Seq::empty(), page: Seq::empty(), used: 0 }
    } else {
        zone_pages(nets.drop_last(), v).with(nets.last(), names_held(v, nets.last()))
    }
}

/// The ZI-Rsps that name the zones of `nets`.
pub open spec fn zi_replies(nets: Seq<u16>, v: TablesView) -> Seq<CmdView> {
    zone_pages(nets, v).flushed()
}

/// A size, stopped one past the limit.
pub open spec fn capped(n: nat) -> nat {
    if n <= MAX_ZONES {
        n
    } else {
        (MAX_ZONES + 1) as nat
    }
}

fn capped_sum(a: usize, b: usize) -> (r: usize)
    requires
        a <= MAX_ZONES + 1,
        b <= MAX_ZONES + 1,
    ensures
        r == capped((a + b) as nat),
{
    if a + b <= MAX_ZONES {
        a + b
    } else {
        MAX_ZONES + 1
    }
}

fn capped_size(name: &String) -> (r: usize)
    ensures
        r == capped(name_size(name@)),
{
    let n: usize = name.as_str().as_bytes().len();
    if n <= MAX_ZONES {
        capped_sum(3, n)
    } else {
        MAX_ZONES + 1
    }
}

fn capped_total(names: &Vec<String>) -> (r: usize)
    ensures
        r == capped(names_size(names.deep_view())),
{
    let ghost ns = names.deep_view();
    let mut total: usize = 0;
    assert(ns.take(0) =~= Seq::empty());
    let mut i: usize = 0;
    while i < names.len()
        invariant
            i <= names@.len(),
            ns == names.deep_view(),
            total == capped(names_size(ns.take(i as int))),
        decreases names@.len() - i,
    {
        assert(ns.take(i + 1).drop_last() =~= ns.take(i as int));
        assert(ns.take(i + 1).last() == names@[i as int]@);
        total = capped_sum(total, capped_size(&names[i]));
        i = i + 1;
    }
    assert(ns.take(i as int) =~= ns);
    total
}

/// Appends the packets of a list too long for one.
fn push_long_list(out: &mut Vec<Cmd>, net: u16, names: &Vec<String>)
    ensures
        final(out).deep_view() == old(out).deep_view() + long_list(net, names.deep_view()),
{
    let ghost ns = names.deep_view();
    let ghost start = out.deep_view();
    let count = low16(names.len());
    let mut chunk: Vec<(u16, String)> = Vec::new();
    let mut used: usize = 0;
    let ghost mut c = name_chunks(Seq::empty());
    assert(ns.take(0) =~= Seq::empty());
    assert(out.deep_view() =~= start + list_packets(net, count, c.done));
    assert(zones_view(chunk@) =~= zone_entries(net, c.chunk));
    let mut i: usize = 0;
    while i < names.len()
        invariant
            i <= names@.len(),
            ns == names.deep_view(),
            count == ns.len() % 0x10000,
            c == name_chunks(ns.take(i as int)),
            out.deep_view() == start + list_packets(net, count, c.done),
            zones_view(chunk@) == zone_entries(net, c.chunk),
            used == capped(c.used),
        decreases names@.len() - i,
    {
        assert(ns.take(i + 1).drop_last() =~= ns.take(i as int));
        assert(ns.take(i + 1).last() == names@[i as int]@);
        let ghost n = ns[i as int];
        let ghost d = name_chunks(ns.take(i + 1));
        assert(zones_view(chunk@).len() == chunk@.len());
        let s = capped_size(&names[i]);
        if capped_sum(used, s) > MAX_ZONES && chunk.len() > 0 {
            let mut full: Vec<(u16, String)> = Vec::new();
            std::mem::swap(&mut full, &mut chunk);
            let ghost before = out.deep_view();
            out.push(Cmd::ZiRsp { extended: Some(count), zones: full });
            assert(out.deep_view() =~= before.push(
                CmdView::ZiRsp { extended: Some(count), zones: zone_entries(net, c.chunk) },
            ));
            assert(list_packets(net, count, d.done) =~= list_packets(net, count, c.done).push(
                CmdView::ZiRsp { extended: Some(count), zones: zone_entries(net, c.chunk) },
            ));
            used = 0;
            assert(zones_view(chunk@) =~= Seq::empty());
        }
        used = capped_sum(used, s);
        let ghost zv = zones_view(chunk@);
        chunk.push((net, names[i].clone()));
        assert(zones_view(chunk@) =~= zv.push((net, n)));
        assert(zones_view(chunk@) =~= zone_entries(net, d.chunk));
        proof {
            c = d;
        }
        i = i + 1;
        assert(out.deep_view() =~= start + list_packets(net, count, c.done));
    }
    assert(ns.take(i as int) =~= ns);
    assert(zones_view(chunk@).len() == chunk@.len());
    if chunk.len() > 0 {
        let ghost before = out.deep_view();
        let ghost last = CmdView::ZiRsp {
            extended: Some(count),
            zones: zone_entries(net, c.chunk),
        };
        out.push(Cmd::ZiRsp { extended: Some(count), zones: chunk });
        assert(out.deep_view() =~= before.push(last));
        assert(list_packets(net, count, c.done.push(c.chunk)) =~= list_packets(
            net,
            count,
            c.done,
        ).push(last));
    }
    assert(out.deep_view() =~= start + long_list(net, ns));
}

/// The ZI-Rsp(s) naming the zones of `nets`, split so that no body is longer
/// than `MAX_BODY`. A network
/// whose own list overflows a packet gets subcode 2, whose count is the whole
/// list's rather than the packet's.
pub fn zi_pages(nets: &Vec<u16>, tables: &Tables) -> (r: Vec<Cmd>)
    ensures
        r.deep_view() == zi_replies(nets@, tables.deep_view()),
{
    let ghost v = tables.deep_view();
    let mut out: Vec<Cmd> = Vec::new();
    let mut page: Vec<(u16, String)> = Vec::new();
    let mut used: usize = 0;
    let ghost mut z = zone_pages(Seq::empty(), v);
    assert(nets@.take(0) =~= Seq::empty());
    assert(out.deep_view() =~= z.out);
    assert(zones_view(page@) =~= z.page);
    let mut i: usize = 0;
    while i < nets.len()
        invariant
            i <= nets@.len(),
            v == tables.deep_view(),
            z == zone_pages(nets@.take(i as int), v),
            out.deep_view() == z.out,
            zones_view(page@) == z.page,
            used == capped(z.used),
        decreases nets@.len() - i,
    {
        assert(nets@.take(i + 1).drop_last() =~= nets@.take(i as int));
        assert(nets@.take(i + 1).last() == nets@[i as int]);
        let net = nets[i];
        let ghost y = zone_pages(nets@.take(i + 1), v);
        assert(y == z.with(net, names_held(v, net)));
        if let Some(zl) = tables.zones(net) {
            let ghost ns = zl.names.deep_view();
            assert(ns == names_held(v, net));
            assert(ns.len() == zl.names@.len());
            if zl.names.len() > 0 {
                let total = capped_total(&zl.names);
                assert(zones_view(page@).len() == page@.len());
                if total > MAX_ZONES {
                    flush(&mut out, &mut page);
                    used = 0;
                    push_long_list(&mut out, net, &zl.names);
                } else {
                    if capped_sum(used, total) > MAX_ZONES && page.len() > 0 {
                        flush(&mut out, &mut page);
                        used = 0;
                    }
                    used = capped_sum(used, total);
                    push_entries(&mut page, net, &zl.names);
                    assert(zones_view(page@) =~= y.page);
                }
            }
        }
        proof {
            z = y;
        }
        i = i + 1;
    }
    assert(nets@.take(i as int) =~= nets@);
    flush(&mut out, &mut page);
    out
}

/// Sends off the packet being filled, if there is anything in it.
fn flush(out: &mut Vec<Cmd>, page: &mut Vec<(u16, String)>)
    ensures
        final(page)@.len() == 0,
        zones_view(final(page)@) == Seq::<(u16, Seq<char>)>::empty(),
        final(out).deep_view() == (if old(page)@.len() > 0 {
            old(out).deep_view().push(
                CmdView::ZiRsp { extended: None, zones: zones_view(old(page)@) },
            )
        } else {
            old(out).deep_view()
        }),
{
    if page.len() > 0 {
        let ghost before = out.deep_view();
        let ghost pv = zones_view(page@);
        let mut full: Vec<(u16, String)> = Vec::new();
        std::mem::swap(&mut full, page);
        out.push(Cmd::ZiRsp { extended: None, zones: full });
        assert(out.deep_view() =~= before.push(CmdView::ZiRsp { extended: None, zones: pv }));
    }
    assert(zones_view(page@) =~= Seq::empty());
}

/// Adds one network's zones to a packet.
fn push_entries(page: &mut Vec<(u16, String)>, net: u16, names: &Vec<String>)
    ensures
        zones_view(final(page)@) == zones_view(old(page)@) + zone_entries(net, names.deep_view()),
{
    let ghost ns = names.deep_view();
    let ghost start = zones_view(page@);
    assert(zones_view(page@) =~= start + zone_entries(net, ns.take(0)));
    let mut i: usize = 0;
    while i < names.len()
        invariant
            i <= names@.len(),
            ns == names.deep_view(),
            zones_view(page@) == start + zone_entries(net, ns.take(i as int)),
        decreases names@.len() - i,
    {
        let ghost before = zones_view(page@);
        page.push((net, names[i].clone()));
        assert(zones_view(page@) =~= before.push((net, ns[i as int])));
        i = i + 1;
        assert(zones_view(page@) =~= start + zone_entries(net, ns.take(i as int)));
    }
    assert(ns.take(i as int) =~= ns);
}

// ----------------------------------------------------------------- ZI-Reqs

/// The ZI-Reqs that ask about `nets`.
pub open spec fn zi_requests(nets: Seq<u16>) -> Seq<CmdView>
    decreases nets.len(),
{
    if nets.len() == 0 {
        Seq::empty()
    } else if nets.len() <= MAX_ASKED {
        seq![CmdView::ZiReq { nets }]
    } else {
        seq![CmdView::ZiReq { nets: nets.take(MAX_ASKED as int) }] + zi_requests(
            nets.skip(MAX_ASKED as int),
        )
    }
}

/// Splits the networks to ask about into ZI-Reqs that do not fragment.
pub fn zi_req_pages(nets: &Vec<u16>) -> (r: Vec<Cmd>)
    ensures
        r.deep_view() == zi_requests(nets@),
{
    let ghost all = zi_requests(nets@);
    let len: usize = nets.len();
    let mut out: Vec<Cmd> = Vec::new();
    let mut i: usize = 0;
    assert(nets@.skip(0) =~= nets@);
    assert(out.deep_view() + zi_requests(nets@.skip(0)) =~= all);
    while i < nets.len()
        invariant
            i <= nets@.len(),
            len == nets@.len(),
            out.deep_view() + zi_requests(nets@.skip(i as int)) == all,
        decreases nets@.len() - i,
    {
        let n: usize = if nets.len() - i <= MAX_ASKED {
            nets.len() - i
        } else {
            MAX_ASKED
        };
        let mut some: Vec<u16> = Vec::new();
        let mut j: usize = 0;
        while j < n
            invariant
                j <= n,
                i + n <= len,
                len == nets@.len(),
                some@ == nets@.subrange(i as int, i + j),
            decreases n - j,
        {
            some.push(nets[i + j]);
            j = j + 1;
            assert(some@ =~= nets@.subrange(i as int, i + j));
        }
        let ghost rest = nets@.skip(i as int);
        let ghost before = out.deep_view();
        let ghost c = CmdView::ZiReq { nets: some@ };
        out.push(Cmd::ZiReq { nets: some });
        assert(out.deep_view() =~= before.push(c));
        proof {
            assert(rest.skip(n as int) =~= nets@.skip(i + n));
            if rest.len() <= MAX_ASKED {
                assert(some@ =~= rest);
                assert(zi_requests(nets@.skip(i + n)) =~= Seq::empty());
            } else {
                assert(some@ =~= rest.take(MAX_ASKED as int));
            }
            assert(zi_requests(rest) =~= seq![c] + zi_requests(nets@.skip(i + n)));
        }
        i = i + n;
        assert(out.deep_view() + zi_requests(nets@.skip(i as int)) =~= all);
    }
    assert(nets@.skip(i as int) =~= Seq::empty());
    assert(out.deep_view() =~= all);
    out
}

// -------------------------------------------------------------------- laws

/// The zone tuples a reply carries.
pub open spec fn carried(c: CmdView) -> Seq<(u16, Seq<char>)> {
    match c {
        CmdView::ZiRsp { zones, .. } => zones,
        _ => Seq::empty(),
    }
}

/// The zone tuples of a run of replies, one after the other.
pub open spec fn carried_all(cs: Seq<CmdView>) -> Seq<(u16, Seq<char>)>
    decreases cs.len(),
{
    if cs.len() == 0 {
        Seq::empty()
    } else {
        carried_all(cs.drop_last()) + carried(cs.last())
    }
}

/// The zone tuples of all the networks, in order.
pub open spec fn entries_of(nets: Seq<u16>, v: TablesView) -> Seq<(u16, Seq<char>)>
    decreases nets.len(),
{
    if nets.len() == 0 {
        Seq::empty()
    } else {
        entries_of(nets.drop_last(), v) + zone_entries(nets.last(), names_held(v, nets.last()))
    }
}

/// The bytes zone tuples take at most.
pub open spec fn entries_size(zs: Seq<(u16, Seq<char>)>) -> nat
    decreases zs.len(),
{
    if zs.len() == 0 {
        0
    } else {
        entries_size(zs.drop_last()) + name_size(zs.last().1)
    }
}

proof fn lemma_carried_push(cs: Seq<CmdView>, c: CmdView)
    ensures
        carried_all(cs.push(c)) == carried_all(cs) + carried(c),
{
    assert(cs.push(c).drop_last() =~= cs);
}

proof fn lemma_carried_add(a: Seq<CmdView>, b: Seq<CmdView>)
    ensures
        carried_all(a + b) == carried_all(a) + carried_all(b),
    decreases b.len(),
{
    if b.len() == 0 {
        assert(a + b =~= a);
        assert(carried_all(a) + carried_all(b) =~= carried_all(a));
    } else {
        lemma_carried_add(a, b.drop_last());
        assert((a + b).drop_last() =~= a + b.drop_last());
        assert(carried_all(a + b) =~= carried_all(a) + carried_all(b));
    }
}

/// A run within the limit, or one name by itself.
pub open spec fn run_fits(names: Seq<Seq<char>>) -> bool {
    names_size(names) <= MAX_ZONES || names.len() == 1
}

/// The runs of a list hold its names, and every run fits.
proof fn lemma_name_chunks(names: Seq<Seq<char>>)
    ensures
        ({
            let c = name_chunks(names);
            &&& c.done.flatten() + c.chunk == names
            &&& c.used == names_size(c.chunk)
            &&& names.len() > 0 ==> c.chunk.len() > 0
            &&& run_fits(c.chunk)
            &&& forall|i: int| 0 <= i < c.done.len() ==> run_fits(#[trigger] c.done[i])
        }),
    decreases names.len(),
{
    if names.len() == 0 {
        assert(Seq::<Seq<Seq<char>>>::empty().flatten() + Seq::<Seq<char>>::empty() =~= names);
    } else {
        let a = names.drop_last();
        let b = name_chunks(a);
        let c = name_chunks(names);
        let n = names.last();
        lemma_name_chunks(a);
        assert(a.push(n) =~= names);
        if b.used + name_size(n) > MAX_ZONES && b.chunk.len() > 0 {
            b.done.lemma_flatten_push(b.chunk);
            assert(c.done.flatten() + c.chunk =~= names);
            assert(seq![n].drop_last() =~= Seq::empty());
            reveal_with_fuel(names_size, 2);
        } else {
            assert(b.chunk.push(n).drop_last() =~= b.chunk);
            assert(c.done.flatten() + c.chunk =~= names);
        }
        assert forall|i: int| 0 <= i < c.done.len() implies run_fits(#[trigger] c.done[i]) by {
            if i < b.done.len() {
                assert(c.done[i] == b.done[i]);
            }
        }
    }
}

proof fn lemma_list_packets(net: u16, count: u16, runs: Seq<Seq<Seq<char>>>)
    ensures
        carried_all(list_packets(net, count, runs)) == zone_entries(net, runs.flatten()),
    decreases runs.len(),
{
    let ps = list_packets(net, count, runs);
    if runs.len() == 0 {
        assert(carried_all(ps) =~= zone_entries(net, runs.flatten()));
    } else {
        let a = runs.drop_last();
        lemma_list_packets(net, count, a);
        a.lemma_flatten_push(runs.last());
        assert(a.push(runs.last()) =~= runs);
        assert(ps.drop_last() =~= list_packets(net, count, a));
        assert(ps.last() == CmdView::ZiRsp {
            extended: Some(count),
            zones: zone_entries(net, runs.last()),
        });
        assert(carried_all(ps) =~= zone_entries(net, runs.flatten()));
    }
}

proof fn lemma_long_list(net: u16, names: Seq<Seq<char>>)
    ensures
        carried_all(long_list(net, names)) == zone_entries(net, names),
{
    let c = name_chunks(names);
    lemma_name_chunks(names);
    let all = if c.chunk.len() > 0 {
        c.done.push(c.chunk)
    } else {
        c.done
    };
    c.done.lemma_flatten_push(c.chunk);
    lemma_list_packets(net, (names.len() % 0x10000) as u16, all);
    if c.chunk.len() == 0 {
        assert(c.chunk =~= Seq::empty());
        assert(c.done.flatten() + c.chunk =~= c.done.flatten());
    }
}

/// Law: the replies hold the zones of all the networks asked about, in order,
/// with none lost and none repeated.
pub proof fn law_zone_pages_lose_nothing(nets: Seq<u16>, v: TablesView)
    ensures
        carried_all(zi_replies(nets, v)) == entries_of(nets, v),
        carried_all(zone_pages(nets, v).out) + zone_pages(nets, v).page == entries_of(nets, v),
    decreases nets.len(),
{
    let b = zone_pages(nets, v);
    if nets.len() == 0 {
        assert(carried_all(b.out) + b.page =~= entries_of(nets, v));
    } else {
        let a = zone_pages(nets.drop_last(), v);
        let net = nets.last();
        let names = names_held(v, net);
        law_zone_pages_lose_nothing(nets.drop_last(), v);
        let flat = CmdView::ZiRsp { extended: None, zones: a.page };
        lemma_carried_push(a.out, flat);
        if names.len() == 0 {
            assert(zone_entries(net, names) =~= Seq::empty());
            assert(carried_all(b.out) + b.page =~= entries_of(nets, v));
        } else if names_size(names) > MAX_ZONES {
            lemma_long_list(net, names);
            lemma_carried_add(a.flushed(), long_list(net, names));
            assert(carried_all(b.out) + b.page =~= entries_of(nets, v));
        } else {
            assert(carried_all(b.out) + b.page =~= entries_of(nets, v));
        }
    }
    lemma_carried_push(b.out, CmdView::ZiRsp { extended: None, zones: b.page });
    if b.page.len() == 0 {
        assert(carried_all(b.out) + b.page =~= carried_all(b.out));
    }
}

/// Every name is at least one byte long.
pub open spec fn sized_names(names: Seq<Seq<char>>) -> bool {
    forall|i: int| 0 <= i < names.len() ==> 4 <= name_size(#[trigger] names[i])
}

/// Zone tuples all with such names.
pub open spec fn sized_entries(zs: Seq<(u16, Seq<char>)>) -> bool {
    forall|i: int| 0 <= i < zs.len() ==> 4 <= name_size((#[trigger] zs[i]).1)
}

/// A reply of such tuples within the limit, or of one alone: the wire clips
/// its name.
pub open spec fn fits(c: CmdView) -> bool {
    &&& entries_size(carried(c)) <= MAX_ZONES || carried(c).len() == 1
    &&& sized_entries(carried(c))
}

proof fn lemma_entries(net: u16, names: Seq<Seq<char>>)
    ensures
        entries_size(zone_entries(net, names)) == names_size(names),
        sized_names(names) ==> sized_entries(zone_entries(net, names)),
    decreases names.len(),
{
    if names.len() > 0 {
        lemma_entries(net, names.drop_last());
        assert(zone_entries(net, names).drop_last() =~= zone_entries(net, names.drop_last()));
    }
}

proof fn lemma_entries_add(a: Seq<(u16, Seq<char>)>, b: Seq<(u16, Seq<char>)>)
    ensures
        entries_size(a + b) == entries_size(a) + entries_size(b),
    decreases b.len(),
{
    if b.len() == 0 {
        assert(a + b =~= a);
    } else {
        lemma_entries_add(a, b.drop_last());
        assert((a + b).drop_last() =~= a + b.drop_last());
    }
}

/// Tuples as they travel take no more than spelled out.
proof fn lemma_zone_bytes_small(zs: Seq<(u16, Seq<char>)>)
    requires
        sized_entries(zs),
    ensures
        zone_bytes(zs).len() <= entries_size(zs),
    decreases zs.len(),
{
    if zs.len() > 0 {
        let a = zs.drop_last();
        assert forall|i: int| 0 <= i < a.len() implies 4 <= name_size((#[trigger] a[i]).1) by {
            assert(zs[i] == a[i]);
        }
        lemma_zone_bytes_small(a);
        assert(4 <= name_size(zs[zs.len() - 1].1));
        assert(zone_ref(a, zs.last().1).len() <= 1 + encode_utf8(zs.last().1).len());
    }
}

proof fn lemma_long_list_fits(net: u16, names: Seq<Seq<char>>)
    requires
        sized_names(names),
    ensures
        forall|i: int| 0 <= i < long_list(net, names).len() ==> fits(#[trigger] long_list(net, names)[i]),
{
    let c = name_chunks(names);
    lemma_name_chunks(names);
    lemma_chunk_names(names);
    let ps = long_list(net, names);
    assert forall|i: int| 0 <= i < ps.len() implies fits(#[trigger] ps[i]) by {
        if i < c.done.len() {
            lemma_entries(net, c.done[i]);
        } else {
            lemma_entries(net, c.chunk);
        }
    }
}

/// The names of a run are names of the list.
proof fn lemma_chunk_names(names: Seq<Seq<char>>)
    requires
        sized_names(names),
    ensures
        sized_names(name_chunks(names).chunk),
        forall|i: int|
            0 <= i < name_chunks(names).done.len() ==> sized_names(
                #[trigger] name_chunks(names).done[i],
            ),
    decreases names.len(),
{
    if names.len() > 0 {
        let a = names.drop_last();
        assert forall|i: int| 0 <= i < a.len() implies 4 <= name_size(#[trigger] a[i]) by {
            assert(names[i] == a[i]);
        }
        lemma_chunk_names(a);
        assert(4 <= name_size(names[names.len() - 1]));
    }
}

proof fn lemma_zone_pages_fit(nets: Seq<u16>, v: TablesView)
    requires
        forall|net: u16| sized_names(#[trigger] names_held(v, net)),
    ensures
        ({
            let z = zone_pages(nets, v);
            &&& z.used == entries_size(z.page)
            &&& z.used <= MAX_ZONES
            &&& sized_entries(z.page)
            &&& forall|i: int| 0 <= i < z.out.len() ==> fits(#[trigger] z.out[i])
        }),
    decreases nets.len(),
{
    if nets.len() > 0 {
        let a = zone_pages(nets.drop_last(), v);
        let z = zone_pages(nets, v);
        let net = nets.last();
        let names = names_held(v, net);
        lemma_zone_pages_fit(nets.drop_last(), v);
        lemma_entries(net, names);
        lemma_entries_add(a.page, zone_entries(net, names));
        assert(sized_names(names));
        if names.len() > 0 {
            if names_size(names) > MAX_ZONES {
                lemma_long_list_fits(net, names);
                assert forall|i: int| 0 <= i < z.out.len() implies fits(#[trigger] z.out[i]) by {
                    if i < a.out.len() {
                        assert(z.out[i] == a.out[i]);
                    } else if i < a.flushed().len() {
                    } else {
                        assert(z.out[i] == long_list(net, names)[i - a.flushed().len()]);
                    }
                }
            } else if a.used + names_size(names) > MAX_ZONES && a.page.len() > 0 {
                assert forall|i: int| 0 <= i < z.out.len() implies fits(#[trigger] z.out[i]) by {
                    if i < a.out.len() {
                        assert(z.out[i] == a.out[i]);
                    }
                }
            } else {
                if a.page.len() == 0 {
                    assert(a.used == 0);
                }
                assert forall|i: int| 0 <= i < z.page.len() implies 4 <= name_size(
                    (#[trigger] z.page[i]).1,
                ) by {
                    if i < a.page.len() {
                        assert(z.page[i] == a.page[i]);
                    } else {
                        assert(z.page[i] == zone_entries(net, names)[i - a.page.len()]);
                    }
                }
            }
        }
    }
}

/// Law: no reply has a body longer than `MAX_BODY` bytes as it travels, subcode
/// and count included, so long as no zone name is empty. (An offset is one byte
/// longer than an empty name spelled out.)
pub proof fn law_zone_pages_fit(nets: Seq<u16>, v: TablesView, i: int)
    requires
        forall|net: u16| sized_names(#[trigger] names_held(v, net)),
        0 <= i < zi_replies(nets, v).len(),
    ensures
        zi_replies(nets, v)[i] is ZiRsp,
        zi_replies(nets, v)[i].body().len() <= MAX_BODY,
{
    lemma_zone_pages_fit(nets, v);
    lemma_replies_kind(nets, v);
    let z = zone_pages(nets, v);
    let c = zi_replies(nets, v)[i];
    if i < z.out.len() {
        assert(c == z.out[i]);
    }
    assert(fits(c));
    let zs = carried(c);
    if zs.len() == 1 {
        reveal_with_fuel(zone_bytes, 2);
        assert(zs.drop_last() =~= Seq::empty());
    } else {
        lemma_zone_bytes_small(zs);
    }
}

proof fn lemma_replies_kind(nets: Seq<u16>, v: TablesView)
    ensures
        forall|i: int| 0 <= i < zone_pages(nets, v).out.len() ==> (#[trigger] zone_pages(nets, v).out[i]) is ZiRsp,
    decreases nets.len(),
{
    if nets.len() > 0 {
        lemma_replies_kind(nets.drop_last(), v);
        let a = zone_pages(nets.drop_last(), v);
        let z = zone_pages(nets, v);
        assert forall|i: int| 0 <= i < z.out.len() implies (#[trigger] z.out[i]) is ZiRsp by {
            if i < a.out.len() {
                assert(z.out[i] == a.out[i]);
            }
        }
    }
}

/// Law: the requests ask about exactly the networks given, in order, and none
/// is longer than `MAX_BODY` bytes.
pub proof fn law_zi_requests(nets: Seq<u16>)
    ensures
        asked(zi_requests(nets)) == nets,
        forall|i: int|
            0 <= i < zi_requests(nets).len() ==> (#[trigger] zi_requests(nets)[i]).body().len()
                <= MAX_BODY,
    decreases nets.len(),
{
    let r = zi_requests(nets);
    if nets.len() == 0 {
        assert(asked(r) =~= nets);
    } else if nets.len() <= MAX_ASKED {
        wire::zip::lemma_numbers_round_trip(nets);
        assert(r.drop_first() =~= Seq::empty());
        reveal_with_fuel(asked, 2);
        assert(asked(r) =~= nets);
    } else {
        let head = nets.take(MAX_ASKED as int);
        let tail = nets.skip(MAX_ASKED as int);
        law_zi_requests(tail);
        wire::zip::lemma_numbers_round_trip(head);
        assert(r.drop_first() =~= zi_requests(tail));
        assert(asked(r) =~= nets);
        assert forall|i: int| 0 <= i < r.len() implies (#[trigger] r[i]).body().len()
            <= MAX_BODY by {
            if i > 0 {
                assert(r[i] == zi_requests(tail)[i - 1]);
            }
        }
    }
}

/// The networks a run of requests asks about.
pub open spec fn asked(cs: Seq<CmdView>) -> Seq<u16>
    decreases cs.len(),
{
    if cs.len() == 0 {
        Seq::empty()
    } else {
        (match cs[0] {
            CmdView::ZiReq { nets } => nets,
            _ => Seq::empty(),
        }) + asked(cs.drop_first())
    }
}

} // verus!
