//! The routing and zone tables: what the router knows about every network on
//! the internet, and which zones sit on each.

use std::collections::HashMap;

use vstd::prelude::*;

use crate::names;
use crate::router::{PortId, Target};
use crate::wire::{Addr, NetworkTuple};

verus! {

broadcast use vstd::std_specs::hash::group_hash_axioms;

/// The validity timer in milliseconds: an entry unconfirmed for this
/// long ages a step.
pub const VALIDITY: u64 = 20000;

/// The distance at which a network is as good as unreachable.
pub const FAR: u8 = 15;

/// The distance that tells a neighbour an entry has gone bad.
pub const NOTIFY: u8 = 31;

/// How stale an entry is. The validity timer walks it one step at a time and
/// deletes it after `Worst`.
#[derive(Debug, Clone, Copy, PartialEq, Eq, Structural)]
pub enum State {
    Good,
    Suspect,
    Bad,
    Worst,
}

impl State {
    /// Good and suspect entries still carry traffic; bad ones only get
    /// announced at distance 31 until they are deleted.
    pub open spec fn carries(self) -> bool {
        self == State::Good || self == State::Suspect
    }

    /// One tick of the validity timer. `None` means delete the entry.
    pub open spec fn next(self) -> Option<State> {
        match self {
            State::Good => Some(State::Suspect),
            State::Suspect => Some(State::Bad),
            State::Bad => Some(State::Worst),
            State::Worst => None,
        }
    }

    pub open spec fn text(self) -> Seq<char> {
        match self {
            State::Good => "good"@,
            State::Suspect => "suspect"@,
            State::Bad => "bad"@,
            State::Worst => "worst"@,
        }
    }

    pub(crate) fn usable(self) -> (r: bool)
        ensures
            r == self.carries(),
    {
        match self {
            State::Good => true,
            State::Suspect => true,
            _ => false,
        }
    }

    fn aged(self) -> (r: Option<State>)
        ensures
            r == self.next(),
    {
        match self {
            State::Good => Some(State::Suspect),
            State::Suspect => Some(State::Bad),
            State::Bad => Some(State::Worst),
            State::Worst => None,
        }
    }

    pub fn name(self) -> (r: &'static str)
        ensures
            r@ == self.text(),
    {
        match self {
            State::Good => "good",
            State::Suspect => "suspect",
            State::Bad => "bad",
            State::Worst => "worst",
        }
    }
}

/// One way to reach one network range. There is one per (target, next router)
/// pair, so an alternative path through a second router on the same cable is a
/// separate entry and does not displace the incumbent.
#[derive(Debug, Clone, Copy, PartialEq, Eq)]
pub struct Route {
    pub range: (u16, u16),
    pub extended: bool,
    pub distance: u8,
    pub target: Target,
    /// The next internet router. Zero for a directly attached network and for
    /// anything learned over a tunnel.
    pub next: Addr,
    pub state: State,
    /// When the entry was last confirmed or aged, in milliseconds.
    pub seen: u64,
}

impl Route {
    pub open spec fn reaches(self, net: u16) -> bool {
        self.range.0 <= net <= self.range.1
    }

    /// Identity within a range start: what the tables remember so a tie keeps
    /// the incumbent.
    pub open spec fn id(self) -> (Target, Addr) {
        (self.target, self.next)
    }

    pub open spec fn as_tuple(self) -> NetworkTuple {
        NetworkTuple { range: self.range, extended: self.extended, distance: self.distance }
    }

    /// A network of our own: never replaced, never aged.
    pub open spec fn own(self) -> bool {
        self.distance == 0 && self.target is Port
    }

    fn contains(&self, net: u16) -> (r: bool)
        ensures
            r == self.reaches(net),
    {
        self.range.0 <= net && net <= self.range.1
    }

    fn key(&self) -> (r: (Target, Addr))
        ensures
            r == self.id(),
    {
        (self.target, self.next)
    }

    fn tuple(&self) -> (r: NetworkTuple)
        ensures
            r == self.as_tuple(),
    {
        NetworkTuple { range: self.range, extended: self.extended, distance: self.distance }
    }

    fn direct(&self) -> (r: bool)
        ensures
            r == self.own(),
    {
        self.distance == 0 && matches!(self.target, Target::Port(_))
    }
}

/// A change to the *best* route for a range. `old`/`new` both set is a move or
/// a distance change; `old` alone is a deletion, `new` alone an addition.
#[derive(Debug, Clone, Copy, PartialEq, Eq)]
pub struct RouteChange {
    pub range: (u16, u16),
    pub old: Option<Route>,
    pub new: Option<Route>,
}

/// The zones on one network range.
#[derive(Debug, PartialEq, Eq)]
pub struct ZoneList {
    pub names: Vec<String>,
    /// Total announced by an extended reply, when known.
    pub expected: Option<usize>,
}

/// What a zone list says.
pub struct ZoneListView {
    pub names: Seq<Seq<char>>,
    pub expected: Option<usize>,
}

impl ZoneListView {
    /// A list nobody has filled in yet is never complete; an extended reply
    /// that named a total is complete once we hold that many.
    pub open spec fn complete(self) -> bool {
        &&& self.names.len() > 0
        &&& match self.expected {
            Some(e) => self.names.len() >= e,
            None => true,
        }
    }
}

impl DeepView for ZoneList {
    type V = ZoneListView;

    open spec fn deep_view(&self) -> ZoneListView {
        ZoneListView { names: self.names.deep_view(), expected: self.expected }
    }
}

impl ZoneList {
    pub fn complete(&self) -> (r: bool)
        ensures
            r == self.deep_view().complete(),
    {
        self.names.len() > 0 && (match self.expected {
            Some(e) => self.names.len() >= e,
            None => true,
        })
    }
}

/// Two ranges share a network.
pub open spec fn overlap(a: (u16, u16), b: (u16, u16)) -> bool {
    a.0 <= b.1 && b.0 <= a.1
}

fn overlaps(a: (u16, u16), b: (u16, u16)) -> (r: bool)
    ensures
        r == overlap(a, b),
{
    a.0 <= b.1 && b.0 <= a.1
}

fn same_range(a: (u16, u16), b: (u16, u16)) -> (r: bool)
    ensures
        r == (a == b),
{
    a.0 == b.0 && a.1 == b.1
}

/// Which routes a question is about: those that reach a network, or those
/// whose range starts at it.
#[derive(Clone, Copy)]
pub enum Which {
    Net(u16),
    Start(u16),
}

impl Which {
    pub open spec fn hits(self, r: Route) -> bool {
        match self {
            Which::Net(n) => r.reaches(n),
            Which::Start(s) => r.range.0 == s,
        }
    }

    fn covers(self, r: &Route) -> (b: bool)
        ensures
            b == self.hits(*r),
    {
        match self {
            Which::Net(n) => r.contains(n),
            Which::Start(s) => r.range.0 == s,
        }
    }
}

/// The routing and zone tables as data: the routes in the order they were
/// learned, the zones of each range (by its start, with its end), and the
/// route that is currently best for each range start.
pub struct TablesView {
    pub routes: Seq<Route>,
    pub zones: Map<u16, (u16, ZoneListView)>,
    pub best: Map<u16, (Target, Addr)>,
}

/// The distinct range starts of the routes, or of those through one target,
/// in the order the routes were learned.
pub open spec fn starts_in(routes: Seq<Route>, target: Option<Target>) -> Seq<u16>
    decreases routes.len(),
{
    if routes.len() == 0 {
        Seq::empty()
    } else {
        let s = starts_in(routes.drop_last(), target);
        let r = routes.last();
        if (target is None || target == Some(r.target)) && !s.contains(r.range.0) {
            s.push(r.range.0)
        } else {
            s
        }
    }
}

/// The routes that stay when those through `target`, with range start `start`
/// where one is named, are removed.
pub open spec fn routes_without(
    routes: Seq<Route>,
    target: Target,
    start: Option<u16>,
) -> Seq<Route>
    decreases routes.len(),
{
    if routes.len() == 0 {
        Seq::empty()
    } else {
        let s = routes_without(routes.drop_last(), target, start);
        let r = routes.last();
        if r.target == target && (start is None || start == Some(r.range.0)) {
            s
        } else {
            s.push(r)
        }
    }
}

/// One route after a look at the validity timer; None when it is deleted.
/// Directly attached networks and routes learned from an AURP peer never age;
/// a peer's networks leave when the peer says so.
pub open spec fn aged_route(r: Route, now: u64) -> Option<Route> {
    if r.own() || r.target is Peer || now - r.seen < VALIDITY {
        Some(r)
    } else {
        match r.state.next() {
            Some(s) => Some(Route { state: s, seen: now, ..r }),
            None => None,
        }
    }
}

/// Every route after a look at the validity timer.
pub open spec fn aged_routes(routes: Seq<Route>, now: u64) -> Seq<Route>
    decreases routes.len(),
{
    if routes.len() == 0 {
        Seq::empty()
    } else {
        let s = aged_routes(routes.drop_last(), now);
        match aged_route(routes.last(), now) {
            Some(r) => s.push(r),
            None => s,
        }
    }
}

/// The first route for a range through a target and a next router.
pub open spec fn find_route(
    routes: Seq<Route>,
    range: (u16, u16),
    target: Target,
    next: Addr,
) -> Option<int>
    decreases routes.len(),
{
    if routes.len() == 0 {
        None
    } else {
        match find_route(routes.drop_last(), range, target, next) {
            Some(i) => Some(i),
            None => {
                let r = routes.last();
                if r.range == range && r.target == target && r.next == next {
                    Some(routes.len() - 1)
                } else {
                    None
                }
            },
        }
    }
}

/// The first route whose range starts at `start`.
pub open spec fn first_from(routes: Seq<Route>, start: u16) -> Option<Route>
    decreases routes.len(),
{
    if routes.len() == 0 {
        None
    } else {
        match first_from(routes.drop_last(), start) {
            Some(r) => Some(r),
            None => if routes.last().range.0 == start {
                Some(routes.last())
            } else {
                None
            },
        }
    }
}

/// What a best route's change is reported as, if it changed target, distance
/// or existence.
pub open spec fn change_of(start: u16, old: Option<Route>, new: Option<Route>) -> Option<
    RouteChange,
> {
    match (old, new) {
        (None, None) => None,
        (Some(a), Some(b)) => if a.target != b.target || a.distance != b.distance {
            Some(RouteChange { range: b.range, old, new })
        } else {
            None
        },
        (None, Some(b)) => Some(RouteChange { range: b.range, old, new }),
        (Some(a), None) => Some(RouteChange { range: a.range, old, new }),
    }
}

impl TablesView {
    /// The route a range start's traffic currently takes.
    pub open spec fn incumbent(self, r: Route) -> bool {
        self.best.contains_key(r.range.0) && self.best[r.range.0] == r.id()
    }

    /// Whether `r` displaces `b` as the best of the routes seen so far: it is
    /// shorter, or as short and the incumbent where `b` is not.
    pub open spec fn displaces(self, r: Route, b: Route) -> bool {
        r.distance < b.distance || (r.distance == b.distance && self.incumbent(r)
            && !self.incumbent(b))
    }

    /// The place of the shortest usable route; on a tie the incumbent, else
    /// the first one found.
    pub open spec fn pick_index(self, routes: Seq<Route>, w: Which) -> Option<int>
        decreases routes.len(),
    {
        if routes.len() == 0 {
            None
        } else {
            let r = routes.last();
            match self.pick_index(routes.drop_last(), w) {
                None => if r.state.carries() && w.hits(r) {
                    Some(routes.len() - 1)
                } else {
                    None
                },
                Some(i) => if r.state.carries() && w.hits(r) && self.displaces(r, routes[i]) {
                    Some(routes.len() - 1)
                } else {
                    Some(i)
                },
            }
        }
    }

    pub open spec fn pick(self, w: Which) -> Option<Route> {
        match self.pick_index(self.routes, w) {
            Some(i) => Some(self.routes[i]),
            None => None,
        }
    }

    pub open spec fn best_from(self, start: u16) -> Option<Route> {
        self.pick(Which::Start(start))
    }

    pub open spec fn starts(self) -> Seq<u16> {
        starts_in(self.routes, None)
    }

    pub open spec fn has_start(self, start: u16) -> bool {
        exists|i: int| 0 <= i < self.routes.len() && (#[trigger] self.routes[i]).range.0 == start
    }

    pub open spec fn zoned(self, start: u16) -> bool {
        self.zones.contains_key(start) && self.zones[start].1.complete()
    }

    /// What an AURP peer may learn: a best route via one of our ports, with
    /// complete zones and distance below 15.
    pub open spec fn may_export(self, start: u16) -> bool {
        &&& self.best_from(start) matches Some(r)
        &&& r.target is Port && r.distance < FAR
        &&& self.zoned(start)
    }

    /// The tables once the best routes of `starts` are recorded as incumbents
    /// and the zone lists of those that have lost their last route dropped.
    pub open spec fn settled(self, starts: Seq<u16>) -> TablesView {
        TablesView {
            routes: self.routes,
            zones: Map::new(
                |k: u16| self.zones.contains_key(k) && !(starts.contains(k) && !self.has_start(k)),
                |k: u16| self.zones[k],
            ),
            best: Map::new(
                |k: u16|
                    if starts.contains(k) {
                        self.best_from(k) is Some
                    } else {
                        self.best.contains_key(k)
                    },
                |k: u16|
                    if starts.contains(k) {
                        self.best_from(k)->0.id()
                    } else {
                        self.best[k]
                    },
            ),
        }
    }

    /// The changes from `self` to `new` in the best routes of `starts`.
    pub open spec fn changes(self, new: TablesView, starts: Seq<u16>) -> Seq<RouteChange>
        decreases starts.len(),
    {
        if starts.len() == 0 {
            Seq::empty()
        } else {
            let s = self.changes(new, starts.drop_last());
            let k = starts.last();
            match change_of(k, self.best_from(k), new.best_from(k)) {
                Some(c) => s.push(c),
                None => s,
            }
        }
    }

    /// With other routes, settled at `starts`.
    pub open spec fn with_routes(self, routes: Seq<Route>, starts: Seq<u16>) -> TablesView {
        (TablesView { routes, ..self }).settled(starts)
    }

    /// A correctly maintained table holds no overlapping ranges, so a tuple
    /// that overlaps an entry without matching it is dropped.
    pub open spec fn clashes(self, range: (u16, u16)) -> bool {
        exists|i: int|
            0 <= i < self.routes.len() && (#[trigger] self.routes[i]).range != range && overlap(
                self.routes[i].range,
                range,
            )
    }

    /// What a tuple heard through `target` and `next` is stored as: one hop
    /// further than its sender said, and bad if it said 31.
    pub open spec fn entry_for(t: NetworkTuple, target: Target, next: Addr, now: u64) -> Route {
        Route {
            range: t.range,
            extended: t.extended,
            distance: if t.distance < 255 {
                (t.distance + 1) as u8
            } else {
                255
            },
            target,
            next,
            state: if t.distance == NOTIFY {
                State::Bad
            } else {
                State::Good
            },
            seen: now,
        }
    }

    /// The routes once a tuple is learned: an entry of our own stays, any
    /// other is replaced, and a new path is added at the end.
    pub open spec fn learned_routes(
        self,
        t: NetworkTuple,
        target: Target,
        next: Addr,
        now: u64,
    ) -> Seq<Route> {
        let e = Self::entry_for(t, target, next, now);
        match find_route(self.routes, t.range, target, next) {
            Some(i) => if self.routes[i].own() {
                self.routes
            } else {
                self.routes.update(i, e)
            },
            None => self.routes.push(e),
        }
    }

    pub open spec fn learn(
        self,
        t: NetworkTuple,
        target: Target,
        next: Addr,
        now: u64,
    ) -> TablesView {
        if self.clashes(t.range) {
            self
        } else {
            self.with_routes(self.learned_routes(t, target, next, now), seq![t.range.0])
        }
    }

    pub open spec fn age(self, now: u64) -> TablesView {
        self.with_routes(aged_routes(self.routes, now), self.starts())
    }

    pub open spec fn remove_target(self, t: Target) -> TablesView {
        self.with_routes(routes_without(self.routes, t, None), starts_in(self.routes, Some(t)))
    }

    pub open spec fn remove(self, t: Target, start: u16) -> TablesView {
        self.with_routes(routes_without(self.routes, t, Some(start)), seq![start])
    }

    /// The routes of `t` from `start`, moved to another distance.
    pub open spec fn moved_routes(self, t: Target, start: u16, distance: u8, now: u64) -> Seq<
        Route,
    > {
        Seq::new(
            self.routes.len(),
            |i: int|
                if self.routes[i].target == t && self.routes[i].range.0 == start {
                    Route { distance, seen: now, ..self.routes[i] }
                } else {
                    self.routes[i]
                },
        )
    }

    pub open spec fn set_distance(
        self,
        t: Target,
        start: u16,
        distance: u8,
        now: u64,
    ) -> TablesView {
        self.with_routes(self.moved_routes(t, start, distance, now), seq![start])
    }

    pub open spec fn add_port(
        self,
        port: PortId,
        range: (u16, u16),
        extended: bool,
        zones: Seq<Seq<char>>,
        now: u64,
    ) -> TablesView {
        let r = Route {
            range,
            extended,
            distance: 0,
            target: Target::Port(port),
            next: Addr { net: 0, node: 0 },
            state: State::Good,
            seen: now,
        };
        TablesView {
            routes: self.routes.push(r),
            zones: self.zones.insert(
                range.0,
                (range.1, ZoneListView { names: zones, expected: None }),
            ),
            best: self.best.insert(range.0, r.id()),
        }
    }

    /// What a range is announced as on `port`: its best route, unless that
    /// goes through the port itself. A range whose entries have all gone bad
    /// is still announced, at distance 31 -- notify neighbour.
    pub open spec fn announced(self, start: u16, port: PortId) -> Option<NetworkTuple> {
        match self.best_from(start) {
            Some(r) => if r.target == Target::Port(port) {
                None
            } else {
                Some(r.as_tuple())
            },
            None => match first_from(self.routes, start) {
                Some(r) => if r.target == Target::Port(port) {
                    None
                } else {
                    Some(NetworkTuple { distance: NOTIFY, ..r.as_tuple() })
                },
                None => None,
            },
        }
    }

    pub open spec fn announced_of(self, starts: Seq<u16>, port: PortId) -> Seq<NetworkTuple>
        decreases starts.len(),
    {
        if starts.len() == 0 {
            Seq::empty()
        } else {
            let s = self.announced_of(starts.drop_last(), port);
            match self.announced(starts.last(), port) {
                Some(t) => s.push(t),
                None => s,
            }
        }
    }

    pub open spec fn tuples_for(self, port: PortId) -> Seq<NetworkTuple> {
        self.announced_of(self.starts(), port)
    }

    pub open spec fn exported_of(self, starts: Seq<u16>) -> Seq<NetworkTuple>
        decreases starts.len(),
    {
        if starts.len() == 0 {
            Seq::empty()
        } else {
            let s = self.exported_of(starts.drop_last());
            if self.may_export(starts.last()) {
                s.push(self.best_from(starts.last())->0.as_tuple())
            } else {
                s
            }
        }
    }

    pub open spec fn export(self) -> Seq<NetworkTuple> {
        self.exported_of(self.starts())
    }

    /// The zone list of a range once names, and a total where one came with
    /// them, are added to it.
    pub open spec fn zones_with(
        self,
        start: u16,
        more: Seq<Seq<char>>,
        expected: Option<usize>,
    ) -> ZoneListView {
        let had = if self.zones.contains_key(start) {
            self.zones[start].1
        } else {
            ZoneListView { names: Seq::empty(), expected: None }
        };
        ZoneListView {
            names: names::merged(had.names, more),
            expected: if expected is Some {
                expected
            } else {
                had.expected
            },
        }
    }

    /// Names for a range we have no route to are dropped.
    pub open spec fn add_zones(
        self,
        start: u16,
        more: Seq<Seq<char>>,
        expected: Option<usize>,
    ) -> TablesView {
        match first_from(self.routes, start) {
            None => self,
            Some(r) => TablesView {
                zones: self.zones.insert(start, (r.range.1, self.zones_with(start, more, expected))),
                ..self
            },
        }
    }

    /// An addition, when the network has just become exportable.
    pub open spec fn became_exportable(self, new: TablesView, start: u16) -> Seq<RouteChange> {
        if !self.may_export(start) && new.may_export(start) {
            let r = new.best_from(start)->0;
            seq![RouteChange { range: r.range, old: None, new: Some(r) }]
        } else {
            Seq::empty()
        }
    }

    pub open spec fn zone_nets_of(self, starts: Seq<u16>, zone: Seq<char>) -> Seq<(u16, Target)>
        decreases starts.len(),
    {
        if starts.len() == 0 {
            Seq::empty()
        } else {
            let s = self.zone_nets_of(starts.drop_last(), zone);
            let k = starts.last();
            if self.zoned(k) && names::holds_name(self.zones[k].1.names, zone) && self.best_from(
                k,
            ) is Some {
                s.push((k, self.best_from(k)->0.target))
            } else {
                s
            }
        }
    }

    /// Range starts, with the target to reach each, whose complete zone list
    /// names `zone`.
    pub open spec fn nets_in_zone(self, zone: Seq<char>) -> Seq<(u16, Target)> {
        self.zone_nets_of(self.starts(), zone)
    }

    pub open spec fn zoneless_of(self, starts: Seq<u16>) -> Seq<Route>
        decreases starts.len(),
    {
        if starts.len() == 0 {
            Seq::empty()
        } else {
            let s = self.zoneless_of(starts.drop_last());
            let k = starts.last();
            match self.best_from(k) {
                Some(r) => if !self.zoned(k) && !r.own() {
                    s.push(r)
                } else {
                    s
                },
                None => s,
            }
        }
    }

    /// The best routes to the networks that still miss zones, our own left
    /// out: there is nobody to ask about those.
    pub open spec fn zoneless(self) -> Seq<Route> {
        self.zoneless_of(self.starts())
    }

    pub open spec fn zone_names_of(self, starts: Seq<u16>) -> Seq<Seq<char>>
        decreases starts.len(),
    {
        if starts.len() == 0 {
            Seq::empty()
        } else {
            let s = self.zone_names_of(starts.drop_last());
            let k = starts.last();
            if self.zoned(k) {
                names::merged(s, self.zones[k].1.names)
            } else {
                s
            }
        }
    }

    /// Every zone name across complete lists, each once, in first-seen order.
    pub open spec fn all_zones(self) -> Seq<Seq<char>> {
        self.zone_names_of(self.starts())
    }
}

/// Where a route stands against every other one it competes with: no later
/// one displaces it, and it displaces every earlier one.
pub open spec fn stands(v: TablesView, routes: Seq<Route>, w: Which, i: int) -> bool {
    &&& 0 <= i < routes.len()
    &&& routes[i].state.carries() && w.hits(routes[i])
    &&& forall|j: int|
        i < j < routes.len() && (#[trigger] routes[j]).state.carries() && w.hits(routes[j])
            ==> !v.displaces(routes[j], routes[i])
    &&& forall|j: int|
        0 <= j < i && (#[trigger] routes[j]).state.carries() && w.hits(routes[j])
            ==> v.displaces(routes[i], routes[j])
}

/// Nothing usable matches.
pub open spec fn none_stands(routes: Seq<Route>, w: Which) -> bool {
    forall|j: int|
        0 <= j < routes.len() ==> !((#[trigger] routes[j]).state.carries() && w.hits(routes[j]))
}

/// The route picked is the one that stands.
pub proof fn lemma_pick(v: TablesView, routes: Seq<Route>, w: Which)
    ensures
        match v.pick_index(routes, w) {
            Some(i) => stands(v, routes, w, i),
            None => none_stands(routes, w),
        },
    decreases routes.len(),
{
    if routes.len() > 0 {
        let a = routes.drop_last();
        lemma_pick(v, a, w);
        let n = routes.len() - 1;
        match v.pick_index(a, w) {
            None => {
                assert forall|j: int| 0 <= j < n implies !((#[trigger] routes[j]).state.carries()
                    && w.hits(routes[j])) by {
                    assert(a[j] == routes[j]);
                }
            },
            Some(i) => {
                assert(a[i] == routes[i]);
                assert forall|j: int|
                    0 <= j < n && (#[trigger] routes[j]).state.carries() && w.hits(
                        routes[j],
                    ) implies (j == i || (j < i && v.displaces(routes[i], routes[j])) || (i < j
                    && !v.displaces(routes[j], routes[i]))) by {
                    assert(a[j] == routes[j]);
                }
            },
        }
    }
}

/// Only one route stands.
proof fn lemma_pick_unique(v: TablesView, routes: Seq<Route>, w: Which, i: int)
    requires
        stands(v, routes, w, i),
    ensures
        v.pick_index(routes, w) == Some(i),
{
    lemma_pick(v, routes, w);
}

/// Recording the best routes does not change which they are.
pub proof fn lemma_settled_best(v: TablesView, starts: Seq<u16>, k: u16)
    ensures
        v.settled(starts).best_from(k) == v.best_from(k),
{
    let n = v.settled(starts);
    let w = Which::Start(k);
    lemma_pick(v, v.routes, w);
    match v.pick_index(v.routes, w) {
        None => {
            lemma_pick(n, v.routes, w);
        },
        Some(i) => {
            let p = v.routes[i];
            assert(v.best_from(k) == Some(p));
            if starts.contains(k) {
                assert(n.best.contains_key(k) && n.best[k] == p.id());
            } else {
                assert(n.best.contains_key(k) == v.best.contains_key(k));
                assert(v.best.contains_key(k) ==> n.best[k] == v.best[k]);
            }
            assert(stands(n, v.routes, w, i));
            lemma_pick_unique(n, v.routes, w, i);
        },
    }
}

/// A start is listed exactly when a route has it.
pub proof fn lemma_starts(routes: Seq<Route>, k: u16)
    ensures
        starts_in(routes, None).contains(k) <==> exists|i: int|
            0 <= i < routes.len() && (#[trigger] routes[i]).range.0 == k,
    decreases routes.len(),
{
    if routes.len() > 0 {
        let a = routes.drop_last();
        lemma_starts(a, k);
        let s = starts_in(a, None);
        let f = routes.last().range.0;
        if s.contains(k) {
            let i = choose|i: int| 0 <= i < a.len() && (#[trigger] a[i]).range.0 == k;
            assert(routes[i].range.0 == k);
            let j = choose|j: int| 0 <= j < s.len() && s[j] == k;
            assert(starts_in(routes, None)[j] == k);
        }
        if f == k {
            assert(routes[routes.len() - 1].range.0 == k);
            if !s.contains(f) {
                assert(s.push(f)[s.len() as int] == k);
            }
        }
        if starts_in(routes, None).contains(k) && f != k {
            let r = starts_in(routes, None);
            let j = choose|j: int| 0 <= j < r.len() && r[j] == k;
            assert(s[j] == k);
        }
        if exists|i: int| 0 <= i < routes.len() && (#[trigger] routes[i]).range.0 == k {
            let i = choose|i: int| 0 <= i < routes.len() && (#[trigger] routes[i]).range.0 == k;
            if i < a.len() {
                assert(a[i].range.0 == k);
            }
        }
    } else {
        assert(!starts_in(routes, None).contains(k));
    }
}

/// The first route with a start is there exactly when some route has it.
pub proof fn lemma_first_from(routes: Seq<Route>, k: u16)
    ensures
        match first_from(routes, k) {
            Some(r) => routes.contains(r) && r.range.0 == k,
            None => forall|i: int| 0 <= i < routes.len() ==> (#[trigger] routes[i]).range.0 != k,
        },
    decreases routes.len(),
{
    if routes.len() > 0 {
        let a = routes.drop_last();
        lemma_first_from(a, k);
        match first_from(a, k) {
            Some(r) => {
                let i = choose|i: int| 0 <= i < a.len() && a[i] == r;
                assert(routes[i] == r);
            },
            None => {
                assert(routes[routes.len() - 1] == routes.last());
                assert forall|i: int| 0 <= i < a.len() implies (#[trigger] routes[i]).range.0
                    != k by {
                    assert(a[i] == routes[i]);
                }
            },
        }
    }
}

// --------------------------------------------------------------- the tables

/// The zone lists by range start, as data.
spec fn zone_map(m: Map<u16, (u16, ZoneList)>) -> Map<u16, (u16, ZoneListView)> {
    Map::new(|k: u16| m.contains_key(k), |k: u16| (m[k].0, m[k].1.deep_view()))
}

/// The routing and zone tables. The listings scan the routes in the order
/// they were learned, so every one of them is deterministic.
pub struct Tables {
    routes: Vec<Route>,
    /// Range start -> (range end, zones).
    zones: HashMap<u16, (u16, ZoneList)>,
    /// Range start -> the route that is currently best, so a tie keeps it.
    best: HashMap<u16, (Target, Addr)>,
}

impl DeepView for Tables {
    type V = TablesView;

    closed spec fn deep_view(&self) -> TablesView {
        TablesView { routes: self.routes@, zones: zone_map(self.zones@), best: self.best@ }
    }
}

impl Default for Tables {
    fn default() -> (r: Tables)
        ensures
            r.deep_view() == (TablesView {
                routes: Seq::empty(),
                zones: Map::empty(),
                best: Map::empty(),
            }),
    {
        Tables::new()
    }
}

impl Tables {
    pub fn new() -> (r: Tables)
        ensures
            r.deep_view() == (TablesView {
                routes: Seq::empty(),
                zones: Map::empty(),
                best: Map::empty(),
            }),
    {
        let r = Tables { routes: Vec::new(), zones: HashMap::new(), best: HashMap::new() };
        assert(zone_map(r.zones@) =~= Map::empty());
        r
    }

    /// A directly attached network: distance 0, always good, zones complete
    /// from config.
    pub fn add_port(
        &mut self,
        port: PortId,
        range: (u16, u16),
        extended: bool,
        zones: Vec<String>,
        now: u64,
    )
        ensures
            final(self).deep_view() == old(self).deep_view().add_port(
                port,
                range,
                extended,
                zones.deep_view(),
                now,
            ),
    {
        let r = Route {
            range,
            extended,
            distance: 0,
            target: Target::Port(port),
            next: Addr { net: 0, node: 0 },
            state: State::Good,
            seen: now,
        };
        self.routes.push(r);
        let zl = ZoneList { names: zones, expected: None };
        let ghost zv = zl.deep_view();
        self.zones.insert(range.0, (range.1, zl));
        self.best.insert(range.0, r.key());
        assert(zone_map(self.zones@) =~= zone_map(old(self).zones@).insert(
            range.0,
            (range.1, zv),
        ));
    }

    /// What is learned from an RTMP Data packet for one tuple, reached
    /// via `target` with next router `next`. Distance stored is
    /// `tuple.distance + 1`; a tuple distance of 31 marks the entry bad.
    pub fn learn(&mut self, t: &NetworkTuple, target: Target, next: Addr, now: u64) -> (r: Vec<
        RouteChange,
    >)
        ensures
            final(self).deep_view() == old(self).deep_view().learn(*t, target, next, now),
            r@ == (if old(self).deep_view().clashes(t.range) {
                Seq::empty()
            } else {
                old(self).deep_view().changes(final(self).deep_view(), seq![t.range.0])
            }),
    {
        let ghost pre = self.deep_view();
        let mut i: usize = 0;
        while i < self.routes.len()
            invariant
                i <= self.routes@.len(),
                pre == self.deep_view(),
                forall|j: int|
                    0 <= j < i ==> !((#[trigger] self.routes@[j]).range != t.range && overlap(
                        self.routes@[j].range,
                        t.range,
                    )),
            decreases self.routes@.len() - i,
        {
            let r = self.routes[i];
            if !same_range(r.range, t.range) && overlaps(r.range, t.range) {
                assert(pre.routes[i as int] == r);
                return Vec::new();
            }
            i = i + 1;
        }
        assert(!pre.clashes(t.range));
        let starts: Vec<u16> = vec![t.range.0];
        let olds = self.snapshot(&starts);
        let distance: u8 = if t.distance < 255 {
            t.distance + 1
        } else {
            255
        };
        let state = if t.distance == NOTIFY {
            State::Bad
        } else {
            State::Good
        };
        let e = Route {
            range: t.range,
            extended: t.extended,
            distance,
            target,
            next,
            state,
            seen: now,
        };
        match self.find(t.range, target, next) {
            Some(k) => {
                // Replace-Entry, unless the network is our own.
                if !self.routes[k].direct() {
                    self.routes.set(k, e);
                }
            },
            // Create-New-Entry: an alternative path, which may not be the best.
            None => self.routes.push(e),
        }
        assert(self.deep_view() =~= TablesView {
            routes: pre.learned_routes(*t, target, next, now),
            ..pre
        });
        assert(starts@ =~= seq![t.range.0]);
        self.settle(&starts, olds, Ghost(pre))
    }

    /// The best route to a network.
    pub fn best(&self, net: u16) -> (r: Option<&Route>)
        ensures
            match r {
                Some(p) => self.deep_view().pick(Which::Net(net)) == Some(*p),
                None => self.deep_view().pick(Which::Net(net)) is None,
            },
    {
        self.pick(Which::Net(net))
    }

    /// Validity timer: good -> suspect -> bad -> worst -> deleted, one step per
    /// expiry. Directly attached networks and routes learned from an
    /// AURP peer never age; a peer's networks leave when the peer says so.
    pub fn age(&mut self, now: u64) -> (r: Vec<RouteChange>)
        ensures
            final(self).deep_view() == old(self).deep_view().age(now),
            r@ == old(self).deep_view().changes(
                final(self).deep_view(),
                old(self).deep_view().starts(),
            ),
    {
        let ghost pre = self.deep_view();
        let starts = self.starts();
        let olds = self.snapshot(&starts);
        let mut kept: Vec<Route> = Vec::new();
        assert(pre.routes.take(0) =~= Seq::empty());
        let mut i: usize = 0;
        while i < self.routes.len()
            invariant
                i <= self.routes@.len(),
                pre == self.deep_view(),
                kept@ == aged_routes(pre.routes.take(i as int), now),
            decreases self.routes@.len() - i,
        {
            let r = self.routes[i];
            assert(pre.routes.take(i + 1).drop_last() =~= pre.routes.take(i as int));
            assert(pre.routes.take(i + 1).last() == r);
            if r.direct() || matches!(r.target, Target::Peer(_)) || now < r.seen || now - r.seen
                < VALIDITY {
                kept.push(r);
            } else {
                match r.state.aged() {
                    Some(s) => {
                        let a = Route {
                            range: r.range,
                            extended: r.extended,
                            distance: r.distance,
                            target: r.target,
                            next: r.next,
                            state: s,
                            seen: now,
                        };
                        kept.push(a);
                    },
                    None => {},
                }
            }
            i = i + 1;
        }
        assert(pre.routes.take(i as int) =~= pre.routes);
        self.routes = kept;
        assert(self.deep_view() =~= TablesView { routes: aged_routes(pre.routes, now), ..pre });
        self.settle(&starts, olds, Ghost(pre))
    }

    /// Drops every route through a target.
    pub fn remove_target(&mut self, t: Target) -> (r: Vec<RouteChange>)
        ensures
            final(self).deep_view() == old(self).deep_view().remove_target(t),
            r@ == old(self).deep_view().changes(
                final(self).deep_view(),
                starts_in(old(self).deep_view().routes, Some(t)),
            ),
    {
        let ghost pre = self.deep_view();
        let starts = self.starts_where(Some(t));
        let olds = self.snapshot(&starts);
        self.drop_routes(t, None);
        self.settle(&starts, olds, Ghost(pre))
    }

    /// Drops a target's routes from one range start.
    pub fn remove(&mut self, t: Target, start: u16) -> (r: Vec<RouteChange>)
        ensures
            final(self).deep_view() == old(self).deep_view().remove(t, start),
            r@ == old(self).deep_view().changes(final(self).deep_view(), seq![start]),
    {
        let ghost pre = self.deep_view();
        let starts: Vec<u16> = vec![start];
        assert(starts@ =~= seq![start]);
        let olds = self.snapshot(&starts);
        self.drop_routes(t, Some(start));
        self.settle(&starts, olds, Ghost(pre))
    }

    /// Moves a target's routes from one range start to another distance.
    pub fn set_distance(&mut self, t: Target, start: u16, distance: u8, now: u64) -> (r: Vec<
        RouteChange,
    >)
        ensures
            final(self).deep_view() == old(self).deep_view().set_distance(t, start, distance, now),
            r@ == old(self).deep_view().changes(final(self).deep_view(), seq![start]),
    {
        let ghost pre = self.deep_view();
        let starts: Vec<u16> = vec![start];
        assert(starts@ =~= seq![start]);
        let olds = self.snapshot(&starts);
        let ghost goal = pre.moved_routes(t, start, distance, now);
        let mut i: usize = 0;
        while i < self.routes.len()
            invariant
                i <= self.routes@.len(),
                self.routes@.len() == pre.routes.len(),
                goal == pre.moved_routes(t, start, distance, now),
                forall|j: int| 0 <= j < i ==> #[trigger] self.routes@[j] == goal[j],
                forall|j: int|
                    i <= j < self.routes@.len() ==> #[trigger] self.routes@[j] == pre.routes[j],
                self.deep_view() == (TablesView { routes: self.routes@, ..pre }),
            decreases self.routes@.len() - i,
        {
            let mut r = self.routes[i];
            if r.target == t && r.range.0 == start {
                r.distance = distance;
                r.seen = now;
                self.routes.set(i, r);
            }
            i = i + 1;
        }
        assert(self.routes@ =~= goal);
        assert(self.deep_view() =~= TablesView { routes: goal, ..pre });
        self.settle(&starts, olds, Ghost(pre))
    }

    /// Tuples to beacon on `port`: every best route not reached through `port`
    /// (split horizon). A range whose entries have all gone bad is still
    /// announced at distance 31 -- notify neighbour.
    pub fn tuples_for(&self, port: PortId) -> (r: Vec<NetworkTuple>)
        ensures
            r@ == self.deep_view().tuples_for(port),
    {
        let ghost v = self.deep_view();
        let starts = self.starts();
        let mut out: Vec<NetworkTuple> = Vec::new();
        assert(starts@.take(0) =~= Seq::empty());
        let mut i: usize = 0;
        while i < starts.len()
            invariant
                i <= starts@.len(),
                v == self.deep_view(),
                out@ == v.announced_of(starts@.take(i as int), port),
            decreases starts@.len() - i,
        {
            assert(starts@.take(i + 1).drop_last() =~= starts@.take(i as int));
            let start = starts[i];
            match self.best_for_start(start) {
                Some(r) => if r.target != Target::Port(port) {
                    out.push(r.tuple());
                },
                None => match self.first(start) {
                    Some(r) => if r.target != Target::Port(port) {
                        let mut t = r.tuple();
                        t.distance = NOTIFY;
                        out.push(t);
                    },
                    None => {},
                },
            }
            i = i + 1;
        }
        assert(starts@.take(i as int) =~= starts@);
        out
    }

    /// What an AURP peer may learn: our local internet only, so every best
    /// route via one of our ports, with complete zones and distance below 15.
    pub fn export(&self) -> (r: Vec<NetworkTuple>)
        ensures
            r@ == self.deep_view().export(),
    {
        let ghost v = self.deep_view();
        let starts = self.starts();
        let mut out: Vec<NetworkTuple> = Vec::new();
        assert(starts@.take(0) =~= Seq::empty());
        let mut i: usize = 0;
        while i < starts.len()
            invariant
                i <= starts@.len(),
                v == self.deep_view(),
                out@ == v.exported_of(starts@.take(i as int)),
            decreases starts@.len() - i,
        {
            assert(starts@.take(i + 1).drop_last() =~= starts@.take(i as int));
            let start = starts[i];
            if self.exportable(start) {
                if let Some(r) = self.best_for_start(start) {
                    out.push(r.tuple());
                }
            }
            i = i + 1;
        }
        assert(starts@.take(i as int) =~= starts@);
        out
    }

    /// Every route, in the order they were learned.
    pub fn routes(&self) -> (r: &Vec<Route>)
        ensures
            r@ == self.deep_view().routes,
    {
        &self.routes
    }

    /// The zones of a range, by its start.
    pub fn zones(&self, start: u16) -> (r: Option<&ZoneList>)
        ensures
            match r {
                Some(z) => {
                    &&& self.deep_view().zones.contains_key(start)
                    &&& z.deep_view() == self.deep_view().zones[start].1
                },
                None => !self.deep_view().zones.contains_key(start),
            },
    {
        match self.zones.get(&start) {
            Some(e) => Some(&e.1),
            None => None,
        }
    }

    /// Extends the list for a range, dropping names it already holds;
    /// `expected` comes from an extended reply. Returns an addition when the
    /// network has just become exportable.
    pub fn add_zones(&mut self, start: u16, names: &[String], expected: Option<usize>) -> (r: Vec<
        RouteChange,
    >)
        ensures
            final(self).deep_view() == old(self).deep_view().add_zones(
                start,
                names.deep_view(),
                expected,
            ),
            r@ == old(self).deep_view().became_exportable(final(self).deep_view(), start),
    {
        let ghost pre = self.deep_view();
        let end = match self.first(start) {
            Some(r) => r.range.1,
            None => {
                return Vec::new();
            },
        };
        let was = self.exportable(start);
        let mut zl = match self.zones.remove(&start) {
            Some((_end, z)) => z,
            None => ZoneList { names: Vec::new(), expected: None },
        };
        let ghost had = zl.deep_view();
        proof {
            if pre.zones.contains_key(start) {
                assert(had == pre.zones[start].1);
            } else {
                assert(had.names =~= Seq::<Seq<char>>::empty());
            }
        }
        if expected.is_some() {
            zl.expected = expected;
        }
        names::merge_names(&mut zl.names, names);
        let ghost zv = zl.deep_view();
        assert(zv == pre.zones_with(start, names.deep_view(), expected));
        self.zones.insert(start, (end, zl));
        assert(zone_map(self.zones@) =~= pre.zones.insert(start, (end, zv)));
        if was {
            return Vec::new();
        }
        if self.exportable(start) {
            if let Some(r) = self.best_for_start(start) {
                let out: Vec<RouteChange> = vec![
                    RouteChange { range: r.range, old: None, new: Some(*r) },
                ];
                assert(out@ =~= pre.became_exportable(self.deep_view(), start));
                return out;
            }
        }
        Vec::new()
    }

    /// Range starts, with the target to reach each, whose complete zone list
    /// names `zone`.
    pub fn nets_in_zone(&self, zone: &str) -> (r: Vec<(u16, Target)>)
        ensures
            r@ == self.deep_view().nets_in_zone(zone@),
    {
        let ghost v = self.deep_view();
        let starts = self.starts();
        let mut out: Vec<(u16, Target)> = Vec::new();
        assert(starts@.take(0) =~= Seq::empty());
        let mut i: usize = 0;
        while i < starts.len()
            invariant
                i <= starts@.len(),
                v == self.deep_view(),
                out@ == v.zone_nets_of(starts@.take(i as int), zone@),
            decreases starts@.len() - i,
        {
            assert(starts@.take(i + 1).drop_last() =~= starts@.take(i as int));
            let start = starts[i];
            if let Some(z) = self.zones(start) {
                if z.complete() && names::holds(&z.names, zone) {
                    if let Some(r) = self.best_for_start(start) {
                        out.push((start, r.target));
                    }
                }
            }
            i = i + 1;
        }
        assert(starts@.take(i as int) =~= starts@);
        out
    }

    /// Networks still missing zones, with the best route to ask. Our own
    /// networks are skipped: their zones come from config, and there is nobody
    /// to query.
    pub fn zoneless(&self) -> (r: Vec<Route>)
        ensures
            r@ == self.deep_view().zoneless(),
    {
        let ghost v = self.deep_view();
        let starts = self.starts();
        let mut out: Vec<Route> = Vec::new();
        assert(starts@.take(0) =~= Seq::empty());
        let mut i: usize = 0;
        while i < starts.len()
            invariant
                i <= starts@.len(),
                v == self.deep_view(),
                out@ == v.zoneless_of(starts@.take(i as int)),
            decreases starts@.len() - i,
        {
            assert(starts@.take(i + 1).drop_last() =~= starts@.take(i as int));
            let start = starts[i];
            if !self.zones_complete(start) {
                if let Some(r) = self.best_for_start(start) {
                    if !r.direct() {
                        out.push(*r);
                    }
                }
            }
            i = i + 1;
        }
        assert(starts@.take(i as int) =~= starts@);
        out
    }

    /// Every zone name across complete lists, deduplicated case-insensitively,
    /// in first-seen order.
    pub fn all_zones(&self) -> (r: Vec<String>)
        ensures
            r.deep_view() == self.deep_view().all_zones(),
    {
        let ghost v = self.deep_view();
        let starts = self.starts();
        let mut out: Vec<String> = Vec::new();
        assert(starts@.take(0) =~= Seq::empty());
        assert(out.deep_view() =~= Seq::empty());
        let mut i: usize = 0;
        while i < starts.len()
            invariant
                i <= starts@.len(),
                v == self.deep_view(),
                out.deep_view() == v.zone_names_of(starts@.take(i as int)),
            decreases starts@.len() - i,
        {
            assert(starts@.take(i + 1).drop_last() =~= starts@.take(i as int));
            if let Some(z) = self.zones(starts[i]) {
                if z.complete() {
                    let more = z.names.as_slice();
                    assert(more.deep_view() =~= z.names.deep_view());
                    names::merge_names(&mut out, more);
                }
            }
            i = i + 1;
        }
        assert(starts@.take(i as int) =~= starts@);
        out
    }

    // ------------------------------------------------------------- internals

    /// Distinct range starts, in the order the routes were learned, so every
    /// listing this module returns is deterministic.
    fn starts(&self) -> (r: Vec<u16>)
        ensures
            r@ == self.deep_view().starts(),
    {
        self.starts_where(None)
    }

    fn starts_where(&self, target: Option<Target>) -> (r: Vec<u16>)
        ensures
            r@ == starts_in(self.deep_view().routes, target),
    {
        let ghost rs = self.routes@;
        let mut out: Vec<u16> = Vec::new();
        assert(rs.take(0) =~= Seq::empty());
        let mut i: usize = 0;
        while i < self.routes.len()
            invariant
                i <= self.routes@.len(),
                rs == self.routes@,
                out@ == starts_in(rs.take(i as int), target),
            decreases self.routes@.len() - i,
        {
            assert(rs.take(i + 1).drop_last() =~= rs.take(i as int));
            let r = self.routes[i];
            assert(rs.take(i + 1).last() == r);
            let wanted = match target {
                Some(t) => r.target == t,
                None => true,
            };
            if wanted && !has_number(&out, r.range.0) {
                out.push(r.range.0);
            }
            i = i + 1;
        }
        assert(rs.take(i as int) =~= rs);
        out
    }

    /// The shortest usable route in question; on a tie the incumbent, else the
    /// first one found.
    fn pick(&self, w: Which) -> (r: Option<&Route>)
        ensures
            match r {
                Some(p) => self.deep_view().pick(w) == Some(*p),
                None => self.deep_view().pick(w) is None,
            },
    {
        let ghost v = self.deep_view();
        let ghost rs = self.routes@;
        let mut best: Option<usize> = None;
        assert(rs.take(0) =~= Seq::empty());
        let mut i: usize = 0;
        while i < self.routes.len()
            invariant
                i <= self.routes@.len(),
                v == self.deep_view(),
                rs == self.routes@,
                match best {
                    Some(b) => b < i && v.pick_index(rs.take(i as int), w) == Some(b as int),
                    None => v.pick_index(rs.take(i as int), w) is None,
                },
            decreases self.routes@.len() - i,
        {
            assert(rs.take(i + 1).drop_last() =~= rs.take(i as int));
            assert(rs.take(i + 1).last() == rs[i as int]);
            let r = &self.routes[i];
            if r.state.usable() && w.covers(r) {
                let take = match best {
                    None => true,
                    Some(b) => {
                        let o = &self.routes[b];
                        assert(rs.take(i + 1)[b as int] == *o);
                        r.distance < o.distance || (r.distance == o.distance && self.incumbent(r)
                            && !self.incumbent(o))
                    },
                };
                if take {
                    best = Some(i);
                }
            }
            i = i + 1;
        }
        assert(rs.take(i as int) =~= rs);
        match best {
            Some(b) => Some(&self.routes[b]),
            None => None,
        }
    }

    fn best_for_start(&self, start: u16) -> (r: Option<&Route>)
        ensures
            match r {
                Some(p) => self.deep_view().best_from(start) == Some(*p),
                None => self.deep_view().best_from(start) is None,
            },
    {
        self.pick(Which::Start(start))
    }

    pub(crate) fn incumbent(&self, r: &Route) -> (b: bool)
        ensures
            b == self.deep_view().incumbent(*r),
    {
        match self.best.get(&r.range.0) {
            Some(k) => k.0 == r.target && k.1 == r.next,
            None => false,
        }
    }

    fn exportable(&self, start: u16) -> (b: bool)
        ensures
            b == self.deep_view().may_export(start),
    {
        match self.best_for_start(start) {
            Some(r) => matches!(r.target, Target::Port(_)) && r.distance < FAR
                && self.zones_complete(start),
            None => false,
        }
    }

    fn zones_complete(&self, start: u16) -> (b: bool)
        ensures
            b == self.deep_view().zoned(start),
    {
        match self.zones(start) {
            Some(z) => z.complete(),
            None => false,
        }
    }

    /// The first route with a range start.
    fn first(&self, start: u16) -> (r: Option<Route>)
        ensures
            r == first_from(self.deep_view().routes, start),
    {
        let ghost rs = self.routes@;
        assert(rs.take(0) =~= Seq::empty());
        let mut found: Option<Route> = None;
        let mut i: usize = 0;
        while i < self.routes.len()
            invariant
                i <= self.routes@.len(),
                rs == self.routes@,
                found == first_from(rs.take(i as int), start),
            decreases self.routes@.len() - i,
        {
            assert(rs.take(i + 1).drop_last() =~= rs.take(i as int));
            assert(rs.take(i + 1).last() == rs[i as int]);
            if found.is_none() && self.routes[i].range.0 == start {
                found = Some(self.routes[i]);
            }
            i = i + 1;
        }
        assert(rs.take(i as int) =~= rs);
        found
    }

    /// The place of a route, by what identifies it.
    fn find(&self, range: (u16, u16), target: Target, next: Addr) -> (r: Option<usize>)
        ensures
            match r {
                Some(k) => {
                    &&& k < self.deep_view().routes.len()
                    &&& find_route(self.deep_view().routes, range, target, next) == Some(k as int)
                },
                None => find_route(self.deep_view().routes, range, target, next) is None,
            },
            self.deep_view().routes.len() == self.routes@.len(),
    {
        let ghost rs = self.routes@;
        assert(rs.take(0) =~= Seq::empty());
        let mut found: Option<usize> = None;
        let mut i: usize = 0;
        while i < self.routes.len()
            invariant
                i <= self.routes@.len(),
                rs == self.routes@,
                match found {
                    Some(k) => k < i && find_route(rs.take(i as int), range, target, next) == Some(
                        k as int,
                    ),
                    None => find_route(rs.take(i as int), range, target, next) is None,
                },
            decreases self.routes@.len() - i,
        {
            assert(rs.take(i + 1).drop_last() =~= rs.take(i as int));
            assert(rs.take(i + 1).last() == rs[i as int]);
            let r = &self.routes[i];
            if found.is_none() && same_range(r.range, range) && r.target == target && r.next
                == next {
                found = Some(i);
            }
            i = i + 1;
        }
        assert(rs.take(i as int) =~= rs);
        found
    }

    /// Takes out a target's routes, without settling anything.
    fn drop_routes(&mut self, t: Target, start: Option<u16>)
        ensures
            final(self).deep_view() == (TablesView {
                routes: routes_without(old(self).deep_view().routes, t, start),
                ..old(self).deep_view()
            }),
    {
        let ghost rs = self.routes@;
        let mut kept: Vec<Route> = Vec::new();
        assert(rs.take(0) =~= Seq::empty());
        let mut i: usize = 0;
        while i < self.routes.len()
            invariant
                i <= self.routes@.len(),
                rs == self.routes@,
                *self == *old(self),
                kept@ == routes_without(rs.take(i as int), t, start),
            decreases self.routes@.len() - i,
        {
            assert(rs.take(i + 1).drop_last() =~= rs.take(i as int));
            assert(rs.take(i + 1).last() == rs[i as int]);
            let r = self.routes[i];
            let there = match start {
                Some(s) => r.range.0 == s,
                None => true,
            };
            if !(r.target == t && there) {
                kept.push(r);
            }
            i = i + 1;
        }
        assert(rs.take(i as int) =~= rs);
        self.routes = kept;
    }

    fn snapshot(&self, starts: &Vec<u16>) -> (r: Vec<Option<Route>>)
        ensures
            r@.len() == starts@.len(),
            forall|i: int|
                0 <= i < starts@.len() ==> #[trigger] r@[i] == self.deep_view().best_from(
                    starts@[i],
                ),
    {
        let mut out: Vec<Option<Route>> = Vec::new();
        let mut i: usize = 0;
        while i < starts.len()
            invariant
                i <= starts@.len(),
                out@.len() == i,
                forall|j: int|
                    0 <= j < i ==> #[trigger] out@[j] == self.deep_view().best_from(starts@[j]),
            decreases starts@.len() - i,
        {
            out.push(
                match self.best_for_start(starts[i]) {
                    Some(r) => Some(*r),
                    None => None,
                },
            );
            i = i + 1;
        }
        out
    }

    /// Recompute the best route for each touched range start, record the new
    /// incumbent, drop a zone list whose last route has gone, and report the
    /// ranges whose best route changed target, distance or existence.
    fn settle(
        &mut self,
        starts: &Vec<u16>,
        olds: Vec<Option<Route>>,
        Ghost(pre): Ghost<TablesView>,
    ) -> (r: Vec<RouteChange>)
        requires
            olds@.len() == starts@.len(),
            forall|i: int|
                0 <= i < starts@.len() ==> #[trigger] olds@[i] == pre.best_from(starts@[i]),
        ensures
            final(self).deep_view() == old(self).deep_view().settled(starts@),
            r@ == pre.changes(final(self).deep_view(), starts@),
    {
        let ghost v = self.deep_view();
        let mut out: Vec<RouteChange> = Vec::new();
        assert(starts@.take(0) =~= Seq::empty());
        assert(v.settled(starts@.take(0)).zones =~= v.zones);
        assert(v.settled(starts@.take(0)).best =~= v.best);
        let mut i: usize = 0;
        while i < starts.len()
            invariant
                i <= starts@.len(),
                olds@.len() == starts@.len(),
                forall|j: int|
                    0 <= j < starts@.len() ==> #[trigger] olds@[j] == pre.best_from(starts@[j]),
                self.deep_view() == v.settled(starts@.take(i as int)),
                out@ == pre.changes(v, starts@.take(i as int)),
            decreases starts@.len() - i,
        {
            let start = starts[i];
            let ghost at = self.deep_view();
            let ghost took = starts@.take(i as int);
            let ghost takes = starts@.take(i + 1);
            proof {
                lemma_settled_best(v, took, start);
                assert(takes.drop_last() =~= took);
                assert(takes.last() == start);
                assert forall|k: u16| takes.contains(k) == (took.contains(k) || k == start) by {
                    if took.contains(k) {
                        let j = choose|j: int| 0 <= j < took.len() && took[j] == k;
                        assert(takes[j] == k);
                    }
                    assert(takes[i as int] == start);
                    if takes.contains(k) && k != start {
                        let j = choose|j: int| 0 <= j < takes.len() && takes[j] == k;
                        assert(took[j] == k);
                    }
                }
            }
            let new: Option<Route> = match self.best_for_start(start) {
                Some(r) => Some(*r),
                None => None,
            };
            match new {
                Some(r) => {
                    self.best.insert(start, r.key());
                },
                None => {
                    self.best.remove(&start);
                },
            }
            let gone = self.first(start).is_none();
            let ghost z0 = self.zones@;
            assert(zone_map(z0) == at.zones);
            proof {
                lemma_first_from(v.routes, start);
                assert(gone == !v.has_start(start)) by {
                    if !gone {
                        let r = first_from(v.routes, start)->0;
                        let j = choose|j: int| 0 <= j < v.routes.len() && v.routes[j] == r;
                        assert(v.routes[j].range.0 == start);
                    }
                }
            }
            if gone {
                self.zones.remove(&start);
                self.best.remove(&start);
                proof {
                    lemma_pick(v, v.routes, Which::Start(start));
                }
            }
            proof {
                let goal = v.settled(takes);
                assert(self.deep_view().best =~= goal.best);
                assert(self.zones@ == if gone {
                    z0.remove(start)
                } else {
                    z0
                });
                assert forall|k: u16| self.deep_view().zones.contains_key(k)
                    == goal.zones.contains_key(k) by {
                    assert(self.deep_view().zones.contains_key(k) == self.zones@.contains_key(k));
                    assert(at.zones.contains_key(k) == z0.contains_key(k));
                }
                assert forall|k: u16| goal.zones.contains_key(k) implies #[trigger]
                self.deep_view().zones[k] == goal.zones[k] by {
                    assert(at.zones[k] == (z0[k].0, z0[k].1.deep_view()));
                }
                assert(self.deep_view().zones =~= goal.zones);
            }
            let old = olds[i];
            let change = match (old, new) {
                (None, None) => None,
                (Some(a), Some(b)) => if a.target != b.target || a.distance != b.distance {
                    Some(RouteChange { range: b.range, old, new })
                } else {
                    None
                },
                (None, Some(b)) => Some(RouteChange { range: b.range, old, new }),
                (Some(a), None) => Some(RouteChange { range: a.range, old, new }),
            };
            if let Some(c) = change {
                out.push(c);
            }
            i = i + 1;
        }
        assert(starts@.take(i as int) =~= starts@);
        proof {
            lemma_changes_same(pre, v, self.deep_view(), starts@);
        }
        out
    }
}

/// Changes depend on the best routes alone.
proof fn lemma_changes_same(pre: TablesView, a: TablesView, b: TablesView, starts: Seq<u16>)
    requires
        exists|s: Seq<u16>| b == #[trigger] a.settled(s),
    ensures
        pre.changes(a, starts) == pre.changes(b, starts),
    decreases starts.len(),
{
    if starts.len() > 0 {
        lemma_changes_same(pre, a, b, starts.drop_last());
        let s = choose|s: Seq<u16>| b == #[trigger] a.settled(s);
        lemma_settled_best(a, s, starts.last());
    }
}

/// Whether a number is in a list.
pub fn has_number(v: &Vec<u16>, n: u16) -> (r: bool)
    ensures
        r == v@.contains(n),
{
    let mut i: usize = 0;
    while i < v.len()
        invariant
            i <= v@.len(),
            forall|j: int| 0 <= j < i ==> v@[j] != n,
        decreases v@.len() - i,
    {
        if v[i] == n {
            return true;
        }
        i = i + 1;
    }
    false
}

} // verus!
