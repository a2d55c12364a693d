//! Router configuration: what a run of the router is told, and whether it can
//! be run with.

use vstd::prelude::*;
use vstd::slice::*;
use vstd::string::*;
use vstd::utf8::*;

use crate::addr::{Ipv4Addr, SocketAddrV4};
use crate::fmt;
use crate::names::{clone_names, holds_name, merge_names, merged, same_name};
use crate::peer_list::{bad_in, lines_of, named_in, peer_lines};

verus! {

/// The longest zone name, in bytes.
pub const MAX_ZONE: usize = 32;

/// EtherTalk on a NIC.
#[derive(Debug, PartialEq, Eq)]
pub struct EtherPort {
    pub interface: String,
    pub net: (u16, u16),
    /// The first is the port's default zone.
    pub zones: Vec<String>,
}

/// LocalTalk over UDP multicast. One network, never a range.
#[derive(Debug, PartialEq, Eq)]
pub struct LtoudpPort {
    pub interface: Option<Ipv4Addr>,
    pub net: u16,
    pub zones: Vec<String>,
}

/// A serial LocalTalk board. One network, never a range.
#[derive(Debug, PartialEq, Eq)]
pub struct TashtalkPort {
    pub device: String,
    pub net: u16,
    pub zones: Vec<String>,
}

#[derive(Debug, PartialEq, Eq)]
pub struct Config {
    /// Our NBP object name, registered as type `AppleRouter`.
    pub name: String,
    /// Our AURP domain identifier. Needed behind NAT.
    pub public_ip: Option<Ipv4Addr>,
    pub listen: SocketAddrV4,
    /// Whether peers nobody configured are accepted.
    pub open_peering: bool,
    pub peers: Vec<String>,
    pub ethertalk: Vec<EtherPort>,
    pub ltoudp: Vec<LtoudpPort>,
    pub tashtalk: Vec<TashtalkPort>,
}

/// What a port is on.
#[derive(Debug, PartialEq, Eq)]
pub enum On {
    Nic(String),
    Group(Option<Ipv4Addr>),
    Device(String),
}

pub enum OnView {
    Nic(Seq<char>),
    Group(Option<Ipv4Addr>),
    Device(Seq<char>),
}

impl DeepView for On {
    type V = OnView;

    open spec fn deep_view(&self) -> OnView {
        match self {
            On::Nic(s) => OnView::Nic(s@),
            On::Group(a) => OnView::Group(*a),
            On::Device(s) => OnView::Device(s@),
        }
    }
}

/// One port of whichever kind.
#[derive(Debug, PartialEq, Eq)]
pub struct Planned {
    pub on: On,
    pub net: (u16, u16),
    pub zones: Vec<String>,
}

pub struct PlannedView {
    pub on: OnView,
    pub net: (u16, u16),
    pub zones: Seq<Seq<char>>,
}

impl DeepView for Planned {
    type V = PlannedView;

    open spec fn deep_view(&self) -> PlannedView {
        PlannedView { on: self.on.deep_view(), net: self.net, zones: self.zones.deep_view() }
    }
}

/// Why a configuration cannot be run with. Ports are numbered as `plan` lists
/// them.
#[derive(Debug, Clone, Copy, PartialEq, Eq)]
pub enum Problem {
    NoPorts,
    /// A port without a zone.
    NoZones(usize),
    /// A port with a zone whose name is empty or too long.
    BadZone(usize),
    /// Two ports on one interface or device.
    Shared(usize, usize),
    /// Two ports whose network ranges overlap.
    Overlap(usize, usize),
}

pub open spec fn zone_fits(z: Seq<char>) -> bool {
    1 <= encode_utf8(z).len() <= MAX_ZONE
}

pub open spec fn zones_fit(zs: Seq<Seq<char>>) -> bool {
    forall|i: int| 0 <= i < zs.len() ==> zone_fits(#[trigger] zs[i])
}

pub open spec fn overlap(a: (u16, u16), b: (u16, u16)) -> bool {
    a.0 <= b.1 && b.0 <= a.1
}

/// What is wrong with one port on its own.
pub open spec fn unfit(p: PlannedView) -> bool {
    p.zones.len() == 0 || !zones_fit(p.zones)
}

/// What is wrong between two ports.
pub open spec fn clash(p: PlannedView, q: PlannedView) -> bool {
    p.on == q.on || overlap(p.net, q.net)
}

/// A plan that can be run with: there is a port, each has zones, zone names are
/// 1 to 32 bytes, no two ports share an interface or device, and no two ranges
/// overlap.
pub open spec fn runs(ps: Seq<PlannedView>) -> bool {
    &&& ps.len() > 0
    &&& forall|i: int| 0 <= i < ps.len() ==> !unfit(#[trigger] ps[i])
    &&& forall|i: int, j: int|
        0 <= i < j < ps.len() ==> !clash(#[trigger] ps[i], #[trigger] ps[j])
}

/// What is found wrong first: the ports on their own in order, then each with
/// the ports before it.
pub open spec fn found(ps: Seq<PlannedView>, r: Problem) -> bool {
    match r {
        Problem::NoPorts => ps.len() == 0,
        Problem::NoZones(i) => i < ps.len() && ps[i as int].zones.len() == 0 && (forall|k: int|
            0 <= k < i ==> !unfit(#[trigger] ps[k])),
        Problem::BadZone(i) => i < ps.len() && ps[i as int].zones.len() > 0 && !zones_fit(
            ps[i as int].zones,
        ) && (forall|k: int| 0 <= k < i ==> !unfit(#[trigger] ps[k])),
        Problem::Shared(i, j) => first_clash(ps, i as int, j as int) && ps[i as int].on
            == ps[j as int].on,
        Problem::Overlap(i, j) => first_clash(ps, i as int, j as int) && ps[i as int].on
            != ps[j as int].on && overlap(ps[i as int].net, ps[j as int].net),
    }
}

/// The ports are fit, `i` and `j` clash, and no two before them do.
pub open spec fn first_clash(ps: Seq<PlannedView>, i: int, j: int) -> bool {
    &&& 0 <= i < j < ps.len()
    &&& forall|k: int| 0 <= k < ps.len() ==> !unfit(#[trigger] ps[k])
    &&& clash(ps[i], ps[j])
    &&& forall|a: int, b: int|
        0 <= a < b < ps.len() && (b < j || (b == j && a < i)) ==> !clash(
            #[trigger] ps[a],
            #[trigger] ps[b],
        )
}

impl Config {
    /// Every port, in the order EtherTalk, LToUDP, TashTalk.
    pub open spec fn planned(self) -> Seq<PlannedView> {
        let e = self.ethertalk@;
        let l = self.ltoudp@;
        let t = self.tashtalk@;
        Seq::new(
            e.len(),
            |i: int|
                PlannedView {
                    on: OnView::Nic(e[i].interface@),
                    net: e[i].net,
                    zones: e[i].zones.deep_view(),
                },
        ) + Seq::new(
            l.len(),
            |i: int|
                PlannedView {
                    on: OnView::Group(l[i].interface),
                    net: (l[i].net, l[i].net),
                    zones: l[i].zones.deep_view(),
                },
        ) + Seq::new(
            t.len(),
            |i: int|
                PlannedView {
                    on: OnView::Device(t[i].device@),
                    net: (t[i].net, t[i].net),
                    zones: t[i].zones.deep_view(),
                },
        )
    }

    /// Every port, in the order EtherTalk, LToUDP, TashTalk.
    pub fn plan(&self) -> (r: Vec<Planned>)
        ensures
            r.deep_view() == self.planned(),
    {
        let ghost all = self.planned();
        let mut out: Vec<Planned> = Vec::new();
        assert(out.deep_view() =~= all.take(0));
        let mut i: usize = 0;
        while i < self.ethertalk.len()
            invariant
                i <= self.ethertalk@.len() <= all.len(),
                all == self.planned(),
                out.deep_view() == all.take(i as int),
            decreases self.ethertalk@.len() - i,
        {
            let p = &self.ethertalk[i];
            let zones = copied(&p.zones);
            let q = Planned { on: On::Nic(p.interface.clone()), net: p.net, zones };
            assert(q.deep_view() == all[i as int]);
            push(&mut out, q, Ghost(all), Ghost(i as int));
            i = i + 1;
        }
        let ghost n = self.ethertalk@.len() as int;
        i = 0;
        while i < self.ltoudp.len()
            invariant
                n == self.ethertalk@.len(),
                i <= self.ltoudp@.len(),
                n + self.ltoudp@.len() <= all.len(),
                all == self.planned(),
                out.deep_view() == all.take(n + i),
            decreases self.ltoudp@.len() - i,
        {
            let p = &self.ltoudp[i];
            let zones = copied(&p.zones);
            let q = Planned { on: On::Group(p.interface), net: (p.net, p.net), zones };
            assert(q.deep_view() == all[n + i]);
            push(&mut out, q, Ghost(all), Ghost(n + i));
            i = i + 1;
        }
        let ghost m = n + self.ltoudp@.len() as int;
        i = 0;
        while i < self.tashtalk.len()
            invariant
                m == self.ethertalk@.len() + self.ltoudp@.len(),
                i <= self.tashtalk@.len(),
                m + self.tashtalk@.len() == all.len(),
                all == self.planned(),
                out.deep_view() == all.take(m + i),
            decreases self.tashtalk@.len() - i,
        {
            let p = &self.tashtalk[i];
            let zones = copied(&p.zones);
            let q = Planned { on: On::Device(p.device.clone()), net: (p.net, p.net), zones };
            assert(q.deep_view() == all[m + i]);
            push(&mut out, q, Ghost(all), Ghost(m + i));
            i = i + 1;
        }
        assert(all.take(m + i) =~= all);
        out
    }

    /// What is wrong with the configuration, if anything.
    pub fn problem(&self) -> (r: Option<Problem>)
        ensures
            match r {
                None => runs(self.planned()),
                Some(p) => found(self.planned(), p) && !runs(self.planned()),
            },
    {
        let ps = self.plan();
        let ghost v = ps.deep_view();
        assert(v.len() == ps@.len());
        if ps.len() == 0 {
            return Some(Problem::NoPorts);
        }
        let mut i: usize = 0;
        while i < ps.len()
            invariant
                i <= ps@.len(),
                v == ps.deep_view(),
                v == self.planned(),
                v.len() == ps@.len(),
                forall|k: int| 0 <= k < i ==> !unfit(#[trigger] v[k]),
            decreases ps@.len() - i,
        {
            assert(v[i as int] == ps@[i as int].deep_view());
            assert(v[i as int].zones.len() == ps@[i as int].zones@.len());
            if ps[i].zones.len() == 0 {
                assert(unfit(v[i as int]));
                return Some(Problem::NoZones(i));
            }
            if !names_fit(&ps[i].zones) {
                assert(unfit(v[i as int]));
                return Some(Problem::BadZone(i));
            }
            i = i + 1;
        }
        let mut j: usize = 0;
        while j < ps.len()
            invariant
                j <= ps@.len(),
                v == ps.deep_view(),
                v == self.planned(),
                v.len() == ps@.len(),
                forall|k: int| 0 <= k < v.len() ==> !unfit(#[trigger] v[k]),
                forall|a: int, b: int|
                    0 <= a < b < j ==> !clash(#[trigger] v[a], #[trigger] v[b]),
            decreases ps@.len() - j,
        {
            let mut i: usize = 0;
            while i < j
                invariant
                    i <= j < ps@.len(),
                    v == ps.deep_view(),
                    v == self.planned(),
                    v.len() == ps@.len(),
                    forall|k: int| 0 <= k < v.len() ==> !unfit(#[trigger] v[k]),
                    forall|a: int, b: int|
                        0 <= a < b < j ==> !clash(#[trigger] v[a], #[trigger] v[b]),
                    forall|a: int| 0 <= a < i ==> !clash(#[trigger] v[a], v[j as int]),
                decreases j - i,
            {
                assert(v[i as int] == ps@[i as int].deep_view());
                assert(v[j as int] == ps@[j as int].deep_view());
                if same_place(&ps[i].on, &ps[j].on) {
                    assert(clash(v[i as int], v[j as int]));
                    return Some(Problem::Shared(i, j));
                }
                if ps[i].net.0 <= ps[j].net.1 && ps[j].net.0 <= ps[i].net.1 {
                    assert(clash(v[i as int], v[j as int]));
                    return Some(Problem::Overlap(i, j));
                }
                i = i + 1;
            }
            j = j + 1;
        }
        None
    }
}

fn copied(zones: &Vec<String>) -> (r: Vec<String>)
    ensures
        r.deep_view() == zones.deep_view(),
{
    let zs = zones.as_slice();
    assert(zs.deep_view() =~= zones.deep_view());
    clone_names(zs)
}

fn push(out: &mut Vec<Planned>, p: Planned, Ghost(all): Ghost<Seq<PlannedView>>, Ghost(i): Ghost<int>)
    requires
        0 <= i < all.len(),
        old(out).deep_view() == all.take(i),
        p.deep_view() == all[i],
    ensures
        final(out).deep_view() == all.take(i + 1),
{
    let ghost before = out.deep_view();
    let ghost pv = p.deep_view();
    out.push(p);
    assert(out.deep_view() =~= before.push(pv));
    assert(all.take(i + 1) =~= all.take(i).push(all[i]));
}

fn same_place(a: &On, b: &On) -> (r: bool)
    ensures
        r == (a.deep_view() == b.deep_view()),
{
    match (a, b) {
        (On::Nic(x), On::Nic(y)) => *x == *y,
        (On::Group(x), On::Group(y)) => match (x, y) {
            (Some(p), Some(q)) => *p == *q,
            (None, None) => true,
            _ => false,
        },
        (On::Device(x), On::Device(y)) => *x == *y,
        _ => false,
    }
}

fn names_fit(zs: &Vec<String>) -> (r: bool)
    ensures
        r == zones_fit(zs.deep_view()),
{
    let ghost v = zs.deep_view();
    let mut i: usize = 0;
    while i < zs.len()
        invariant
            i <= zs@.len(),
            v == zs.deep_view(),
            v.len() == zs@.len(),
            forall|k: int| 0 <= k < i ==> zone_fits(#[trigger] v[k]),
        decreases zs@.len() - i,
    {
        assert(v[i as int] == zs@[i as int]@);
        let n: usize = zs[i].as_str().as_bytes().len();
        if n == 0 || n > MAX_ZONE {
            assert(!zone_fits(v[i as int]));
            return false;
        }
        i = i + 1;
    }
    true
}

// ---------------------------------------------------------------------- peers

/// Merges peers into those configured: new ones are appended, compared without
/// regard to case with what is already there. Returns (added, already present).
fn merge_peers(peers: &mut Vec<String>, list: &[String]) -> (r: (usize, usize))
    ensures
        final(peers).deep_view() == merged(old(peers).deep_view(), list.deep_view()),
        r.0 == final(peers)@.len() - old(peers)@.len(),
        r.1 == list@.len() - r.0,
{
    let before: usize = peers.len();
    let ghost had = peers.deep_view();
    assert(had.len() == before);
    merge_names(peers, list);
    proof {
        lemma_merged_len(had, list.deep_view());
        assert(peers.deep_view().len() == peers@.len());
        assert(list.deep_view().len() == list@.len());
    }
    let added: usize = peers.len() - before;
    (added, list.len() - added)
}

/// Merges a list of peers, as text, into those configured. Returns (added,
/// already present); or the numbers of the lines that name no peer, and then
/// nothing is merged.
pub fn import_peers(peers: &mut Vec<String>, text: &str) -> (r: Result<(usize, usize), Vec<usize>>)
    ensures
        ({
            let lines = lines_of(text@);
            let before = old(peers).deep_view();
            let after = final(peers).deep_view();
            match r {
                Ok((added, present)) => {
                    &&& bad_in(lines).len() == 0
                    &&& after == merged(before, named_in(lines))
                    &&& added == after.len() - before.len()
                    &&& present == named_in(lines).len() - added
                },
                Err(bad) => bad@.len() > 0 && bad@ == bad_in(lines) && after == before,
            }
        }),
{
    match peer_lines(text) {
        Err(bad) => Err(bad),
        Ok(list) => {
            let ls = list.as_slice();
            assert(ls.deep_view() =~= list.deep_view());
            let r = merge_peers(peers, ls);
            assert(list.deep_view().len() == list@.len());
            assert(peers.deep_view().len() == peers@.len());
            assert(old(peers).deep_view().len() == old(peers)@.len());
            Ok(r)
        },
    }
}

/// Merging adds as much as it is given, at most.
proof fn lemma_merged_len(had: Seq<Seq<char>>, more: Seq<Seq<char>>)
    ensures
        had.len() <= merged(had, more).len() <= had.len() + more.len(),
    decreases more.len(),
{
    if more.len() > 0 {
        lemma_merged_len(had, more.drop_last());
    }
}

/// What an import says it did.
pub fn import_line(added: usize, present: usize) -> (r: String)
    ensures
        r@ == "added "@ + fmt::dec(added as nat) + ", "@ + fmt::dec(present as nat)
            + " already present"@,
{
    let mut s = fmt::text("added ");
    fmt::push_dec(&mut s, added as u64);
    fmt::push_text(&mut s, ", ");
    fmt::push_dec(&mut s, present as u64);
    fmt::push_text(&mut s, " already present");
    s
}

/// Law: importing a list again adds nothing.
pub proof fn law_importing_again_adds_nothing(had: Seq<Seq<char>>, more: Seq<Seq<char>>)
    ensures
        merged(merged(had, more), more) == merged(had, more),
{
    lemma_all_held(had, more);
    lemma_nothing_new(merged(had, more), more);
}

proof fn lemma_all_held(had: Seq<Seq<char>>, more: Seq<Seq<char>>)
    ensures
        forall|i: int| 0 <= i < more.len() ==> holds_name(merged(had, more), #[trigger] more[i]),
    decreases more.len(),
{
    if more.len() > 0 {
        let b = more.drop_last();
        lemma_all_held(had, b);
        let m = merged(had, b);
        let r = merged(had, more);
        assert forall|i: int| 0 <= i < more.len() implies holds_name(r, #[trigger] more[i]) by {
            if i < b.len() {
                assert(b[i] == more[i]);
                let k = choose|k: int| 0 <= k < m.len() && same_name(#[trigger] m[k], b[i]);
                assert(same_name(r[k], more[i]));
            } else if !holds_name(m, more.last()) {
                assert(same_name(r[m.len() as int], more[i]));
            }
        }
    }
}

proof fn lemma_nothing_new(had: Seq<Seq<char>>, more: Seq<Seq<char>>)
    requires
        forall|i: int| 0 <= i < more.len() ==> holds_name(had, #[trigger] more[i]),
    ensures
        merged(had, more) == had,
    decreases more.len(),
{
    if more.len() > 0 {
        let b = more.drop_last();
        assert forall|i: int| 0 <= i < b.len() implies holds_name(had, #[trigger] b[i]) by {
            assert(b[i] == more[i]);
        }
        lemma_nothing_new(had, b);
        assert(holds_name(had, more[more.len() - 1]));
    }
}

/// Law: two ranges overlap where there is a network in both.
pub proof fn law_ranges_overlap_where_they_share_a_network(a: (u16, u16), b: (u16, u16), n: u16)
    requires
        a.0 <= a.1,
        b.0 <= b.1,
    ensures
        a.0 <= n <= a.1 && b.0 <= n <= b.1 ==> overlap(a, b),
        overlap(a, b) ==> ({
            let m = if a.0 < b.0 {
                b.0
            } else {
                a.0
            };
            a.0 <= m <= a.1 && b.0 <= m <= b.1
        }),
{
}

/// Law: what can be run has a port, and of any two ports: each has zones, whose
/// names are 1 to 32 bytes; they stand on different interfaces or devices; and no
/// network lies in both their ranges.
pub proof fn law_what_can_be_run(ps: Seq<PlannedView>, i: int, j: int, n: u16)
    requires
        runs(ps),
        0 <= i < ps.len(),
        0 <= j < ps.len(),
    ensures
        ps[i].zones.len() > 0,
        forall|k: int|
            0 <= k < ps[i].zones.len() ==> 1 <= encode_utf8(#[trigger] ps[i].zones[k]).len() <= 32,
        i != j ==> ps[i].on != ps[j].on,
        i != j && ps[i].net.0 <= n <= ps[i].net.1 ==> !(ps[j].net.0 <= n <= ps[j].net.1),
{
    assert(!unfit(ps[i]));
    assert forall|k: int| 0 <= k < ps[i].zones.len() implies 1 <= encode_utf8(
        #[trigger] ps[i].zones[k],
    ).len() <= 32 by {
        assert(zone_fits(ps[i].zones[k]));
    }
    if i < j {
        assert(!clash(ps[i], ps[j]));
    } else if j < i {
        assert(!clash(ps[j], ps[i]));
    }
}

/// Law: every port of a configuration is planned for, EtherTalk before LToUDP
/// before TashTalk and in the order they stand there; the LocalTalk kinds have a
/// range of their one network.
pub proof fn law_every_port_is_planned_for(c: Config, i: int)
    requires
        0 <= i,
    ensures
        ({
            let ps = c.planned();
            let e = c.ethertalk@;
            let l = c.ltoudp@;
            let t = c.tashtalk@;
            &&& ps.len() == e.len() + l.len() + t.len()
            &&& i < e.len() ==> ps[i].on == OnView::Nic(e[i].interface@) && ps[i].net == e[i].net
                && ps[i].zones == e[i].zones.deep_view()
            &&& i < l.len() ==> ({
                let p = ps[e.len() + i];
                &&& p.on == OnView::Group(l[i].interface) && p.net == (l[i].net, l[i].net)
                &&& p.zones == l[i].zones.deep_view()
            })
            &&& i < t.len() ==> ({
                let p = ps[e.len() + l.len() + i];
                &&& p.on == OnView::Device(t[i].device@) && p.net == (t[i].net, t[i].net)
                &&& p.zones == t[i].zones.deep_view()
            })
        }),
{
}

} // verus!
