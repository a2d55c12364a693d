//! What the routing and zone tables are for, said of the routes themselves.

use vstd::prelude::*;

use crate::names::{holds_name, law_merged_holds, same_name};
use crate::router::table::{first_from, lemma_first_from, lemma_pick, lemma_starts, Route, RouteChange, State, TablesView, Which};
use crate::router::table_laws::{lemma_aged_keeps, lemma_aged_from, lemma_find, lemma_without};
use crate::router::{PortId, Target};
use crate::wire::{Addr, NetworkTuple};

verus! {

// ------------------------------------------------------------- which is best

/// A route that may carry traffic.
pub open spec fn fit(r: Route) -> bool {
    r.state == State::Good || r.state == State::Suspect
}

/// Law: the route a network's traffic takes is one of those whose range holds
/// the network, fit to carry traffic, and none of them is nearer. There is none
/// only where no fit route holds the network.
pub proof fn law_traffic_takes_the_nearest_route(v: TablesView, net: u16)
    ensures
        match v.pick(Which::Net(net)) {
            Some(b) => {
                &&& v.routes.contains(b) && fit(b) && b.range.0 <= net && net <= b.range.1
                &&& forall|i: int|
                    0 <= i < v.routes.len() && fit(#[trigger] v.routes[i]) && v.routes[i].range.0
                        <= net && net <= v.routes[i].range.1 ==> b.distance
                        <= v.routes[i].distance
            },
            None => forall|i: int|
                0 <= i < v.routes.len() ==> !(fit(#[trigger] v.routes[i]) && v.routes[i].range.0
                    <= net && net <= v.routes[i].range.1),
        },
{
    lemma_pick(v, v.routes, Which::Net(net));
    match v.pick(Which::Net(net)) {
        Some(b) => {
            assert forall|i: int|
                0 <= i < v.routes.len() && fit(#[trigger] v.routes[i]) && v.routes[i].range.0 <= net
                    && net <= v.routes[i].range.1 implies b.distance <= v.routes[i].distance by {
                assert(v.routes[i].state.carries() && Which::Net(net).hits(v.routes[i]));
            }
        },
        None => {
            assert forall|i: int| 0 <= i < v.routes.len() implies !(fit(#[trigger] v.routes[i])
                && v.routes[i].range.0 <= net && net <= v.routes[i].range.1) by {
                assert(!(v.routes[i].state.carries() && Which::Net(net).hits(v.routes[i])));
            }
        },
    }
}

/// The nearest fit route among those whose range starts at `start`.
pub open spec fn nearest(v: TablesView, start: u16, b: Route) -> bool {
    &&& v.routes.contains(b) && fit(b) && b.range.0 == start
    &&& forall|i: int|
        0 <= i < v.routes.len() && fit(#[trigger] v.routes[i]) && v.routes[i].range.0 == start
            ==> b.distance <= v.routes[i].distance
}

/// Law: the best route of a range is its nearest fit one, and there is none
/// only where the range has no fit route.
pub proof fn law_the_best_of_a_range_is_the_nearest(v: TablesView, start: u16)
    ensures
        match v.best_from(start) {
            Some(b) => nearest(v, start, b),
            None => forall|i: int|
                0 <= i < v.routes.len() ==> !(fit(#[trigger] v.routes[i]) && v.routes[i].range.0
                    == start),
        },
{
    lemma_pick(v, v.routes, Which::Start(start));
    match v.best_from(start) {
        Some(b) => {
            assert forall|i: int|
                0 <= i < v.routes.len() && fit(#[trigger] v.routes[i]) && v.routes[i].range.0
                    == start implies b.distance <= v.routes[i].distance by {
                assert(v.routes[i].state.carries() && Which::Start(start).hits(v.routes[i]));
            }
        },
        None => {
            assert forall|i: int| 0 <= i < v.routes.len() implies !(fit(#[trigger] v.routes[i])
                && v.routes[i].range.0 == start) by {
                assert(!(v.routes[i].state.carries() && Which::Start(start).hits(v.routes[i])));
            }
        },
    }
}

// ------------------------------------------------------------------- learning

/// Some route's range shares a network with another range without being it.
pub open spec fn in_the_way(v: TablesView, range: (u16, u16)) -> bool {
    exists|i: int|
        0 <= i < v.routes.len() && (#[trigger] v.routes[i]).range != range && v.routes[i].range.0
            <= range.1 && range.0 <= v.routes[i].range.1
}

/// A route by the same way to the same range.
pub open spec fn same_way(r: Route, t: NetworkTuple, target: Target, next: Addr) -> bool {
    r.range == t.range && r.target == target && r.next == next
}

/// Law: a network that is told of is stored one hop further than it was said
/// to be, good, or bad if it was said to be 31 hops away, with the time it was
/// heard; what else is in the tables stays, and nothing else comes. A range that
/// overlaps another without being it is not stored at all, and a network of our
/// own stays what it is.
pub proof fn law_a_network_is_learned(
    v: TablesView,
    t: NetworkTuple,
    target: Target,
    next: Addr,
    now: u64,
)
    ensures
        ({
            let n = v.learn(t, target, next, now);
            let e = Route {
                range: t.range,
                extended: t.extended,
                distance: if t.distance == 255 {
                    255
                } else {
                    (t.distance + 1) as u8
                },
                target,
                next,
                state: if t.distance == 31 {
                    State::Bad
                } else {
                    State::Good
                },
                seen: now,
            };
            &&& in_the_way(v, t.range) ==> n == v
            &&& !in_the_way(v, t.range) ==> {
                &&& n.routes.contains(e) || exists|i: int|
                    0 <= i < v.routes.len() && same_way(#[trigger] v.routes[i], t, target, next)
                        && v.routes[i].distance == 0 && target is Port
                &&& forall|r: Route|
                    v.routes.contains(r) && !same_way(r, t, target, next) ==> #[trigger]
                        n.routes.contains(r)
                &&& forall|r: Route| #[trigger]
                    n.routes.contains(r) ==> v.routes.contains(r) || r == e
                &&& (exists|i: int|
                    0 <= i < v.routes.len() && same_way(#[trigger] v.routes[i], t, target, next))
                    ==> n.routes.len() == v.routes.len()
            }
        }),
{
    let n = v.learn(t, target, next, now);
    let e = TablesView::entry_for(t, target, next, now);
    if in_the_way(v, t.range) {
        let i = choose|i: int|
            0 <= i < v.routes.len() && (#[trigger] v.routes[i]).range != t.range
                && v.routes[i].range.0 <= t.range.1 && t.range.0 <= v.routes[i].range.1;
        assert(v.clashes(t.range));
    } else {
        assert(!v.clashes(t.range));
        lemma_find(v.routes, t.range, target, next);
        lemma_find_some(v.routes, t.range, target, next);
        let rs = v.learned_routes(t, target, next, now);
        assert(n.routes == rs);
        match crate::router::table::find_route(v.routes, t.range, target, next) {
            Some(i) => {
                assert(same_way(v.routes[i], t, target, next));
                if !v.routes[i].own() {
                    assert(rs[i] == e);
                }
                assert forall|r: Route|
                    v.routes.contains(r) && !same_way(r, t, target, next) implies #[trigger]
                n.routes.contains(r) by {
                    let j = choose|j: int| 0 <= j < v.routes.len() && v.routes[j] == r;
                    assert(rs[j] == r);
                }
                assert forall|r: Route| #[trigger]
                    n.routes.contains(r) implies v.routes.contains(r) || r == e by {
                    let j = choose|j: int| 0 <= j < rs.len() && rs[j] == r;
                    if r != e {
                        assert(v.routes[j] == r);
                    }
                }
            },
            None => {
                assert(rs[v.routes.len() as int] == e);
                assert forall|r: Route|
                    v.routes.contains(r) && !same_way(r, t, target, next) implies #[trigger]
                n.routes.contains(r) by {
                    let j = choose|j: int| 0 <= j < v.routes.len() && v.routes[j] == r;
                    assert(rs[j] == r);
                }
                assert forall|r: Route| #[trigger]
                    n.routes.contains(r) implies v.routes.contains(r) || r == e by {
                    let j = choose|j: int| 0 <= j < rs.len() && rs[j] == r;
                    if j < v.routes.len() {
                        assert(v.routes[j] == r);
                    }
                }
            },
        }
    }
}

proof fn lemma_find_some(routes: Seq<Route>, range: (u16, u16), target: Target, next: Addr)
    ensures
        crate::router::table::find_route(routes, range, target, next) is None ==> forall|i: int|
            0 <= i < routes.len() ==> !((#[trigger] routes[i]).range == range && routes[i].target
                == target && routes[i].next == next),
    decreases routes.len(),
{
    if routes.len() > 0 {
        let a = routes.drop_last();
        lemma_find_some(a, range, target, next);
        if crate::router::table::find_route(routes, range, target, next) is None {
            assert forall|i: int| 0 <= i < routes.len() implies !((#[trigger] routes[i]).range
                == range && routes[i].target == target && routes[i].next == next) by {
                if i < a.len() {
                    assert(a[i] == routes[i]);
                }
            }
        }
    }
}

/// Law: a directly attached network stands in the tables at no distance, by its
/// port, with the zones it was given; everything else stays.
pub proof fn law_a_port_is_a_network(
    v: TablesView,
    port: PortId,
    range: (u16, u16),
    extended: bool,
    zones: Seq<Seq<char>>,
    now: u64,
)
    ensures
        ({
            let n = v.add_port(port, range, extended, zones, now);
            &&& n.routes.contains(
                Route {
                    range,
                    extended,
                    distance: 0,
                    target: Target::Port(port),
                    next: Addr { net: 0, node: 0 },
                    state: State::Good,
                    seen: now,
                },
            )
            &&& forall|r: Route| v.routes.contains(r) ==> #[trigger] n.routes.contains(r)
            &&& n.zones.contains_key(range.0) && n.zones[range.0].0 == range.1
                && n.zones[range.0].1.names == zones && n.zones[range.0].1.expected is None
            &&& forall|k: u16|
                k != range.0 ==> n.zones.contains_key(k) == v.zones.contains_key(k) && (
                v.zones.contains_key(k) ==> #[trigger] n.zones[k] == v.zones[k])
        }),
{
    let n = v.add_port(port, range, extended, zones, now);
    assert(n.routes[v.routes.len() as int] == n.routes.last());
    assert forall|r: Route| v.routes.contains(r) implies #[trigger] n.routes.contains(r) by {
        let j = choose|j: int| 0 <= j < v.routes.len() && v.routes[j] == r;
        assert(n.routes[j] == r);
    }
}

// ------------------------------------------------------- forgetting and moving

/// Law: twenty seconds without confirmation take a route learned over a port
/// one step from good over suspect, bad and worst to deletion; a fresher one, a
/// network of our own and a peer's route stay as they are, and nothing comes
/// that was not there.
pub proof fn law_routes_age_by_twenty_seconds(v: TablesView, now: u64, r: Route)
    requires
        v.routes.contains(r),
    ensures
        ({
            let n = v.age(now);
            let stale = r.target is Port && r.distance != 0 && now - r.seen >= 20000;
            &&& !stale ==> n.routes.contains(r)
            &&& stale && r.state == State::Good ==> n.routes.contains(
                Route { state: State::Suspect, seen: now, ..r },
            )
            &&& stale && r.state == State::Suspect ==> n.routes.contains(
                Route { state: State::Bad, seen: now, ..r },
            )
            &&& stale && r.state == State::Bad ==> n.routes.contains(
                Route { state: State::Worst, seen: now, ..r },
            )
            &&& stale ==> !n.routes.contains(r)
            &&& forall|s: Route| #[trigger]
                n.routes.contains(s) ==> exists|j: int|
                    0 <= j < v.routes.len() && (#[trigger] v.routes[j]).range == s.range
                        && v.routes[j].target == s.target && v.routes[j].next == s.next
                        && v.routes[j].distance == s.distance && !(v.routes[j].state
                        == State::Worst && v.routes[j].target is Port && v.routes[j].distance != 0
                        && now - v.routes[j].seen >= 20000)
        }),
{
    let n = v.age(now);
    let i = choose|i: int| 0 <= i < v.routes.len() && v.routes[i] == r;
    if crate::router::table::aged_route(r, now) is Some {
        lemma_aged_keeps(v.routes, now, i);
    }
    lemma_aged_from(v.routes, now);
    let rs = crate::router::table::aged_routes(v.routes, now);
    assert(n.routes == rs);
    if n.routes.contains(r) {
        let k = choose|k: int| 0 <= k < rs.len() && rs[k] == r;
        let j = choose|j: int|
            0 <= j < v.routes.len() && crate::router::table::aged_route(
                #[trigger] v.routes[j],
                now,
            ) == Some(rs[k]);
        assert(!(r.target is Port && r.distance != 0 && now - r.seen >= 20000));
    }
    assert forall|s: Route| #[trigger] n.routes.contains(s) implies exists|j: int|
        0 <= j < v.routes.len() && (#[trigger] v.routes[j]).range == s.range && v.routes[j].target
            == s.target && v.routes[j].next == s.next && v.routes[j].distance == s.distance && !(
        v.routes[j].state == State::Worst && v.routes[j].target is Port && v.routes[j].distance != 0
            && now - v.routes[j].seen >= 20000) by {
        let k = choose|k: int| 0 <= k < rs.len() && rs[k] == s;
        let j = choose|j: int|
            0 <= j < v.routes.len() && crate::router::table::aged_route(
                #[trigger] v.routes[j],
                now,
            ) == Some(rs[k]);
        assert(v.routes[j].range == s.range);
    }
}

/// Law: once a target's routes from one start are removed none is left, and
/// every other route is there, as it was, and no more.
pub proof fn law_removing_a_range_of_a_target(v: TablesView, t: Target, start: u16)
    ensures
        forall|r: Route| #[trigger]
            v.remove(t, start).routes.contains(r) <==> v.routes.contains(r) && !(r.target == t
                && r.range.0 == start),
{
    lemma_without(v.routes, t, Some(start));
}

/// Law: a target's routes from one start move to the distance given, confirmed
/// at that time, and no other route changes.
pub proof fn law_a_distance_is_set(v: TablesView, t: Target, start: u16, distance: u8, now: u64)
    ensures
        ({
            let n = v.set_distance(t, start, distance, now);
            &&& n.routes.len() == v.routes.len()
            &&& forall|i: int|
                0 <= i < v.routes.len() ==> {
                    let r = v.routes[i];
                    if r.target == t && r.range.0 == start {
                        (#[trigger] n.routes[i]) == Route { distance, seen: now, ..r }
                    } else {
                        n.routes[i] == r
                    }
                }
        }),
{
}

// ------------------------------------------------------------- what is reported

/// What a change in the best route of a start is, if it is one: it came, went,
/// or took another way or distance.
pub open spec fn differs(old: Option<Route>, new: Option<Route>) -> bool {
    match (old, new) {
        (None, None) => false,
        (Some(a), Some(b)) => a.target != b.target || a.distance != b.distance,
        _ => true,
    }
}

/// A report of the change in the best route of a start.
pub open spec fn tells_of(c: RouteChange, v: TablesView, n: TablesView, k: u16) -> bool {
    differs(v.best_from(k), n.best_from(k)) && c.old == v.best_from(k) && c.new == n.best_from(k)
}

/// Law: what is reported of some starts is each of them whose best route came,
/// went, or took another way or distance, with what it was and what it is; and
/// nothing else.
pub proof fn law_changes_are_reported(v: TablesView, n: TablesView, starts: Seq<u16>)
    ensures
        forall|k: u16|
            #![trigger starts.contains(k)]
            starts.contains(k) && differs(v.best_from(k), n.best_from(k)) ==> exists|i: int|
                0 <= i < v.changes(n, starts).len() && (#[trigger] v.changes(n, starts)[i]).old
                    == v.best_from(k) && v.changes(n, starts)[i].new == n.best_from(k),
        forall|c: RouteChange| #[trigger]
            v.changes(n, starts).contains(c) ==> exists|k: u16|
                starts.contains(k) && #[trigger] tells_of(c, v, n, k),
        v.changes(n, starts).len() <= starts.len(),
    decreases starts.len(),
{
    if starts.len() > 0 {
        let a = starts.drop_last();
        let s = v.changes(n, a);
        let c = v.changes(n, starts);
        law_changes_are_reported(v, n, a);
        let l = starts.last();
        assert forall|k: u16|
            #![trigger starts.contains(k)]
            starts.contains(k) && differs(v.best_from(k), n.best_from(k)) implies exists|i: int|
            0 <= i < c.len() && (#[trigger] c[i]).old == v.best_from(k) && c[i].new
                == n.best_from(k) by {
            if k == l {
                assert(c[s.len() as int].old == v.best_from(k));
            } else {
                let j = choose|j: int| 0 <= j < starts.len() && starts[j] == k;
                assert(a[j] == k);
                assert(a.contains(k));
                let i = choose|i: int|
                    0 <= i < s.len() && (#[trigger] s[i]).old == v.best_from(k) && s[i].new
                        == n.best_from(k);
                assert(c[i] == s[i]);
            }
        }
        assert forall|x: RouteChange| #[trigger] c.contains(x) implies exists|k: u16|
            starts.contains(k) && #[trigger] tells_of(x, v, n, k) by {
            let i = choose|i: int| 0 <= i < c.len() && c[i] == x;
            if i < s.len() {
                assert(c[i] == s[i]);
                assert(s.contains(s[i]));
                let k = choose|k: u16| a.contains(k) && #[trigger] tells_of(s[i], v, n, k);
                let j = choose|j: int| 0 <= j < a.len() && a[j] == k;
                assert(starts[j] == k);
                assert(starts.contains(k) && tells_of(c[i], v, n, k));
            } else {
                assert(starts[starts.len() - 1] == l);
                assert(starts.contains(l) && tells_of(c[i], v, n, l));
            }
        }
    }
}

// --------------------------------------------------------------- announcements

/// Law: what is announced on a port is complete. Every range whose best route
/// goes another way, by another port or by a peer, is announced as that route;
/// and a range all of whose routes have gone bad is announced at distance 31,
/// unless the first of them goes by the port.
pub proof fn law_everything_else_is_announced(v: TablesView, port: PortId, start: u16)
    ensures
        v.best_from(start) matches Some(r) ==> {
            &&& r.target != Target::Port(port) ==> v.tuples_for(port).contains(
                NetworkTuple { range: r.range, extended: r.extended, distance: r.distance },
            )
        },
        forall|i: int|
            v.best_from(start) is None && 0 <= i < v.routes.len() && (#[trigger] v.routes[i]).range.0
                == start && (forall|j: int|
                0 <= j < i ==> (#[trigger] v.routes[j]).range.0 != start) && v.routes[i].target
                != Target::Port(port) ==> v.tuples_for(port).contains(
                NetworkTuple {
                    range: v.routes[i].range,
                    extended: v.routes[i].extended,
                    distance: 31,
                },
            ),
{
    lemma_pick(v, v.routes, Which::Start(start));
    lemma_starts(v.routes, start);
    let starts = v.starts();
    if let Some(r) = v.best_from(start) {
        let i = v.pick_index(v.routes, Which::Start(start))->0;
        assert(v.routes[i].range.0 == start);
        assert(starts.contains(start));
        if r.target != Target::Port(port) {
            lemma_announced_all(v, starts, port, start);
        }
    } else {
        assert forall|i: int|
            0 <= i < v.routes.len() && (#[trigger] v.routes[i]).range.0 == start && (forall|j: int|
                0 <= j < i ==> (#[trigger] v.routes[j]).range.0 != start) && v.routes[i].target
                != Target::Port(port) implies v.tuples_for(port).contains(
            NetworkTuple {
                range: v.routes[i].range,
                extended: v.routes[i].extended,
                distance: 31,
            },
        ) by {
            assert(starts.contains(start));
            lemma_first_is(v.routes, start, i);
            lemma_announced_all(v, starts, port, start);
        }
    }
}

proof fn lemma_first_is(routes: Seq<Route>, start: u16, i: int)
    requires
        0 <= i < routes.len(),
        routes[i].range.0 == start,
        forall|j: int| 0 <= j < i ==> (#[trigger] routes[j]).range.0 != start,
    ensures
        first_from(routes, start) == Some(routes[i]),
    decreases routes.len(),
{
    let a = routes.drop_last();
    if i < a.len() {
        assert forall|j: int| 0 <= j < i implies (#[trigger] a[j]).range.0 != start by {
            assert(a[j] == routes[j]);
        }
        lemma_first_is(a, start, i);
    } else {
        lemma_first_from(a, start);
        if let Some(r) = first_from(a, start) {
            let j = choose|j: int| 0 <= j < a.len() && a[j] == r;
            assert(routes[j].range.0 != start);
        }
    }
}

proof fn lemma_announced_all(v: TablesView, starts: Seq<u16>, port: PortId, start: u16)
    requires
        starts.contains(start),
        v.announced(start, port) is Some,
    ensures
        v.announced_of(starts, port).contains(v.announced(start, port)->0),
    decreases starts.len(),
{
    let a = starts.drop_last();
    let s = v.announced_of(a, port);
    let w = v.announced_of(starts, port);
    if starts.last() == start {
        assert(w[s.len() as int] == v.announced(start, port)->0);
    } else {
        let j = choose|j: int| 0 <= j < starts.len() && starts[j] == start;
        assert(a[j] == start);
        lemma_announced_all(v, a, port, start);
        let x = v.announced(start, port)->0;
        let k = choose|k: int| 0 <= k < s.len() && s[k] == x;
        assert(w[k] == x);
    }
}

/// Law: nothing is announced on a port but the best routes that go another way,
/// and at distance 31 ranges without a fit route.
pub proof fn law_nothing_else_is_announced(v: TablesView, port: PortId, t: NetworkTuple)
    requires
        v.tuples_for(port).contains(t),
    ensures
        (v.best_from(t.range.0) matches Some(r) && r.target != Target::Port(port) && t.range
            == r.range && t.extended == r.extended && t.distance == r.distance) || (t.distance == 31
            && forall|i: int|
            0 <= i < v.routes.len() ==> !(fit(#[trigger] v.routes[i]) && v.routes[i].range.0
                == t.range.0)),
{
    let ts = v.tuples_for(port);
    let i = choose|i: int| 0 <= i < ts.len() && ts[i] == t;
    crate::router::table_laws::law_split_horizon(v, port, v.starts(), i);
    law_the_best_of_a_range_is_the_nearest(v, t.range.0);
}

// --------------------------------------------------------------------- exports

/// A zone list that is complete: somebody named a zone, and as many as were
/// announced.
pub open spec fn zones_known(v: TablesView, start: u16) -> bool {
    &&& v.zones.contains_key(start)
    &&& v.zones[start].1.names.len() > 0
    &&& v.zones[start].1.expected matches Some(e) ==> v.zones[start].1.names.len() >= e
}

/// What peers are told of.
pub open spec fn ours_to_tell(v: TablesView, r: Route) -> bool {
    r.target is Port && r.distance < 15 && zones_known(v, r.range.0)
}

/// Law: peers are told of exactly the best routes by our own ports, nearer than
/// 15 hops, whose zones are all known.
pub proof fn law_peers_are_told_of_our_internet(v: TablesView)
    ensures
        forall|k: u16|
            (#[trigger] v.best_from(k)) matches Some(r) ==> (ours_to_tell(v, r)
                ==> v.export().contains(
                NetworkTuple { range: r.range, extended: r.extended, distance: r.distance },
            )),
        forall|t: NetworkTuple| #[trigger]
            v.export().contains(t) ==> (v.best_from(t.range.0) matches Some(r) && ours_to_tell(v, r)
                && t.range == r.range && t.extended == r.extended && t.distance == r.distance),
{
    assert forall|k: u16|
        (#[trigger] v.best_from(k)) is Some && ours_to_tell(v, v.best_from(k)->0)
            implies v.export().contains(
        NetworkTuple {
            range: v.best_from(k)->0.range,
            extended: v.best_from(k)->0.extended,
            distance: v.best_from(k)->0.distance,
        },
    ) by {
        let r = v.best_from(k)->0;
        lemma_pick(v, v.routes, Which::Start(k));
        let i = v.pick_index(v.routes, Which::Start(k))->0;
        assert(v.routes[i].range.0 == k);
        lemma_starts(v.routes, k);
        if ours_to_tell(v, r) {
            lemma_exported_all(v, v.starts(), k);
        }
    }
    assert forall|t: NetworkTuple| #[trigger] v.export().contains(t) implies (v.best_from(
        t.range.0,
    ) matches Some(r) && ours_to_tell(v, r) && t.range == r.range && t.extended == r.extended
        && t.distance == r.distance) by {
        let i = choose|i: int| 0 <= i < v.export().len() && v.export()[i] == t;
        crate::router::table_laws::law_exports_only_our_internet(v, v.starts(), i);
        lemma_pick(v, v.routes, Which::Start(t.range.0));
    }
}

proof fn lemma_exported_all(v: TablesView, starts: Seq<u16>, k: u16)
    requires
        starts.contains(k),
        v.may_export(k),
    ensures
        v.exported_of(starts).contains(v.best_from(k)->0.as_tuple()),
    decreases starts.len(),
{
    let a = starts.drop_last();
    let s = v.exported_of(a);
    let w = v.exported_of(starts);
    let x = v.best_from(k)->0.as_tuple();
    if starts.last() == k {
        assert(w[s.len() as int] == x);
    } else {
        let j = choose|j: int| 0 <= j < starts.len() && starts[j] == k;
        assert(a[j] == k);
        lemma_exported_all(v, a, k);
        let i = choose|i: int| 0 <= i < s.len() && s[i] == x;
        assert(w[i] == x);
    }
}

// ----------------------------------------------------------------------- zones

/// Law: zones told of a range that some route reaches are held from then on,
/// with those held before, and a total that came with them; no other range is
/// touched, and zones of a range that nothing reaches are not kept.
pub proof fn law_zones_are_kept(
    v: TablesView,
    start: u16,
    more: Seq<Seq<char>>,
    expected: Option<usize>,
)
    ensures
        ({
            let n = v.add_zones(start, more, expected);
            let reached = exists|i: int|
                0 <= i < v.routes.len() && (#[trigger] v.routes[i]).range.0 == start;
            &&& n.routes == v.routes
            &&& !reached ==> n == v
            &&& reached ==> {
                &&& n.zones.contains_key(start)
                &&& forall|i: int|
                    0 <= i < more.len() ==> holds_name(
                        n.zones[start].1.names,
                        #[trigger] more[i],
                    )
                &&& v.zones.contains_key(start) ==> v.zones[start].1.names.is_prefix_of(
                    n.zones[start].1.names,
                )
                &&& expected is Some ==> n.zones[start].1.expected == expected
                &&& expected is None && v.zones.contains_key(start) ==> n.zones[start].1.expected
                    == v.zones[start].1.expected
            }
            &&& forall|i: int|
                reached && 0 <= i < n.zones[start].1.names.len() ==> {
                    ||| v.zones.contains_key(start) && v.zones[start].1.names.contains(
                        #[trigger] n.zones[start].1.names[i],
                    )
                    ||| more.contains(n.zones[start].1.names[i])
                }
            &&& forall|k: u16|
                k != start ==> n.zones.contains_key(k) == v.zones.contains_key(k) && (
                v.zones.contains_key(k) ==> #[trigger] n.zones[k] == v.zones[k])
        }),
{
    lemma_first_from(v.routes, start);
    let had = if v.zones.contains_key(start) {
        v.zones[start].1.names
    } else {
        Seq::empty()
    };
    law_merged_holds(had, more);
    if exists|i: int| 0 <= i < v.routes.len() && (#[trigger] v.routes[i]).range.0 == start {
        let i = choose|i: int| 0 <= i < v.routes.len() && (#[trigger] v.routes[i]).range.0 == start;
        assert(first_from(v.routes, start) is Some);
    } else {
        if let Some(r) = first_from(v.routes, start) {
            let j = choose|j: int| 0 <= j < v.routes.len() && v.routes[j] == r;
            assert(v.routes[j].range.0 == start);
        }
    }
}

/// Law: the networks of a zone are exactly those with a best route whose zones
/// are all known and name it, in any spelling; each comes with the way it is
/// reached.
pub proof fn law_the_networks_of_a_zone(v: TablesView, zone: Seq<char>)
    ensures
        forall|k: u16|
            #![trigger v.best_from(k)]
            v.best_from(k) is Some && zones_known(v, k) && (exists|i: int|
                0 <= i < v.zones[k].1.names.len() && same_name(
                    #[trigger] v.zones[k].1.names[i],
                    zone,
                )) ==> v.nets_in_zone(zone).contains((k, v.best_from(k)->0.target)),
        forall|e: (u16, Target)| #[trigger]
            v.nets_in_zone(zone).contains(e) ==> v.best_from(e.0) is Some && v.best_from(e.0)->0.target
                == e.1 && zones_known(v, e.0) && exists|i: int|
                0 <= i < v.zones[e.0].1.names.len() && same_name(
                    #[trigger] v.zones[e.0].1.names[i],
                    zone,
                ),
{
    assert forall|k: u16|
        #![trigger v.best_from(k)]
        v.best_from(k) is Some && zones_known(v, k) && (exists|i: int|
            0 <= i < v.zones[k].1.names.len() && same_name(#[trigger] v.zones[k].1.names[i], zone))
            implies v.nets_in_zone(zone).contains((k, v.best_from(k)->0.target)) by {
        lemma_pick(v, v.routes, Which::Start(k));
        let i = v.pick_index(v.routes, Which::Start(k))->0;
        assert(v.routes[i].range.0 == k);
        lemma_starts(v.routes, k);
        lemma_zone_nets_in(v, v.starts(), zone, k);
    }
    lemma_zone_nets_only(v, v.starts(), zone);
}

proof fn lemma_zone_nets_in(v: TablesView, starts: Seq<u16>, zone: Seq<char>, k: u16)
    requires
        starts.contains(k),
        v.zoned(k),
        holds_name(v.zones[k].1.names, zone),
        v.best_from(k) is Some,
    ensures
        v.zone_nets_of(starts, zone).contains((k, v.best_from(k)->0.target)),
    decreases starts.len(),
{
    let a = starts.drop_last();
    let s = v.zone_nets_of(a, zone);
    let w = v.zone_nets_of(starts, zone);
    let x = (k, v.best_from(k)->0.target);
    if starts.last() == k {
        assert(w[s.len() as int] == x);
    } else {
        let j = choose|j: int| 0 <= j < starts.len() && starts[j] == k;
        assert(a[j] == k);
        lemma_zone_nets_in(v, a, zone, k);
        let i = choose|i: int| 0 <= i < s.len() && s[i] == x;
        assert(w[i] == x);
    }
}

proof fn lemma_zone_nets_only(v: TablesView, starts: Seq<u16>, zone: Seq<char>)
    ensures
        forall|e: (u16, Target)| #[trigger]
            v.zone_nets_of(starts, zone).contains(e) ==> v.best_from(e.0) is Some && v.best_from(
                e.0,
            )->0.target == e.1 && v.zoned(e.0) && holds_name(v.zones[e.0].1.names, zone),
    decreases starts.len(),
{
    if starts.len() > 0 {
        let a = starts.drop_last();
        let s = v.zone_nets_of(a, zone);
        let w = v.zone_nets_of(starts, zone);
        lemma_zone_nets_only(v, a, zone);
        assert forall|e: (u16, Target)| #[trigger] w.contains(e) implies v.best_from(e.0) is Some
            && v.best_from(e.0)->0.target == e.1 && v.zoned(e.0) && holds_name(
            v.zones[e.0].1.names,
            zone,
        ) by {
            let i = choose|i: int| 0 <= i < w.len() && w[i] == e;
            if i < s.len() {
                assert(s.contains(s[i]));
            }
        }
    }
}

/// Law: the networks to ask the zones of are exactly those with a best route,
/// not our own cables, whose zones are not all known.
pub proof fn law_networks_without_zones(v: TablesView)
    ensures
        forall|k: u16|
            (#[trigger] v.best_from(k)) matches Some(r) ==> (!zones_known(v, k) && !(r.target is Port
                && r.distance == 0) ==> v.zoneless().contains(r)),
        forall|r: Route| #[trigger]
            v.zoneless().contains(r) ==> v.best_from(r.range.0) == Some(r) && !zones_known(
                v,
                r.range.0,
            ) && !(r.target is Port && r.distance == 0),
{
    assert forall|k: u16|
        (#[trigger] v.best_from(k)) is Some && !zones_known(v, k) && !(v.best_from(k)->0.target is Port
            && v.best_from(k)->0.distance == 0) implies v.zoneless().contains(v.best_from(k)->0) by {
        let r = v.best_from(k)->0;
        lemma_pick(v, v.routes, Which::Start(k));
        let i = v.pick_index(v.routes, Which::Start(k))->0;
        assert(v.routes[i].range.0 == k);
        lemma_starts(v.routes, k);
        if !zones_known(v, k) && !(r.target is Port && r.distance == 0) {
            lemma_zoneless_in(v, v.starts(), k);
        }
    }
    lemma_zoneless_only(v, v.starts());
}

proof fn lemma_zoneless_in(v: TablesView, starts: Seq<u16>, k: u16)
    requires
        starts.contains(k),
        v.best_from(k) is Some,
        !v.zoned(k),
        !v.best_from(k)->0.own(),
    ensures
        v.zoneless_of(starts).contains(v.best_from(k)->0),
    decreases starts.len(),
{
    let a = starts.drop_last();
    let s = v.zoneless_of(a);
    let w = v.zoneless_of(starts);
    let x = v.best_from(k)->0;
    if starts.last() == k {
        assert(w[s.len() as int] == x);
    } else {
        let j = choose|j: int| 0 <= j < starts.len() && starts[j] == k;
        assert(a[j] == k);
        lemma_zoneless_in(v, a, k);
        let i = choose|i: int| 0 <= i < s.len() && s[i] == x;
        assert(w[i] == x);
    }
}

proof fn lemma_zoneless_only(v: TablesView, starts: Seq<u16>)
    ensures
        forall|r: Route| #[trigger]
            v.zoneless_of(starts).contains(r) ==> v.best_from(r.range.0) == Some(r) && !v.zoned(
                r.range.0,
            ) && !r.own(),
    decreases starts.len(),
{
    if starts.len() > 0 {
        let a = starts.drop_last();
        let s = v.zoneless_of(a);
        let w = v.zoneless_of(starts);
        lemma_zoneless_only(v, a);
        lemma_pick(v, v.routes, Which::Start(starts.last()));
        assert forall|r: Route| #[trigger] w.contains(r) implies v.best_from(r.range.0) == Some(r)
            && !v.zoned(r.range.0) && !r.own() by {
            let i = choose|i: int| 0 <= i < w.len() && w[i] == r;
            if i < s.len() {
                assert(s.contains(s[i]));
            }
        }
    }
}

/// A zone of a range whose zones are all known.
pub open spec fn zone_of(v: TablesView, k: u16, zone: Seq<char>) -> bool {
    zones_known(v, k) && v.zones[k].1.names.contains(zone)
}

pub open spec fn listed_somewhere(v: TablesView, zone: Seq<char>) -> bool {
    exists|k: u16| #[trigger] zone_of(v, k, zone)
}

/// Law: the zones of the internet are those of every range whose zones are all
/// known, each in one spelling, and no others.
pub proof fn law_all_zones_are_listed(v: TablesView)
    ensures
        forall|i: int, j: int|
            0 <= i < v.routes.len() && zones_known(v, v.routes[i].range.0) && 0 <= j
                < v.zones[v.routes[i].range.0].1.names.len() ==> holds_name(
                v.all_zones(),
                #[trigger] v.zones[(#[trigger] v.routes[i]).range.0].1.names[j],
            ),
        forall|i: int|
            0 <= i < v.all_zones().len() ==> listed_somewhere(v, #[trigger] v.all_zones()[i]),
        forall|i: int, j: int|
            0 <= i < j < v.all_zones().len() ==> !same_name(
                #[trigger] v.all_zones()[i],
                #[trigger] v.all_zones()[j],
            ),
{
    assert forall|i: int, j: int|
        0 <= i < v.routes.len() && zones_known(v, v.routes[i].range.0) && 0 <= j < v.zones[v.routes[i].range.0].1.names.len() implies holds_name(
        v.all_zones(),
        #[trigger] v.zones[(#[trigger] v.routes[i]).range.0].1.names[j],
    ) by {
        let k = v.routes[i].range.0;
        lemma_starts(v.routes, k);
        lemma_all_zones_in(v, v.starts(), k, j);
    }
    lemma_all_zones_only(v, v.starts());
}

proof fn lemma_all_zones_in(v: TablesView, starts: Seq<u16>, k: u16, j: int)
    requires
        starts.contains(k),
        v.zoned(k),
        0 <= j < v.zones[k].1.names.len(),
    ensures
        holds_name(v.zone_names_of(starts), v.zones[k].1.names[j]),
    decreases starts.len(),
{
    let a = starts.drop_last();
    let s = v.zone_names_of(a);
    let l = starts.last();
    let x = v.zones[k].1.names[j];
    if v.zoned(l) {
        law_merged_holds(s, v.zones[l].1.names);
    }
    if l != k {
        let i = choose|i: int| 0 <= i < starts.len() && starts[i] == k;
        assert(a[i] == k);
        lemma_all_zones_in(v, a, k, j);
        let w = v.zone_names_of(starts);
        let i = choose|i: int| 0 <= i < s.len() && same_name(#[trigger] s[i], x);
        assert(w[i] == s[i]);
    }
}

proof fn lemma_all_zones_only(v: TablesView, starts: Seq<u16>)
    ensures
        forall|i: int|
            0 <= i < v.zone_names_of(starts).len() ==> listed_somewhere(
                v,
                #[trigger] v.zone_names_of(starts)[i],
            ),
        crate::names::distinct_names(v.zone_names_of(starts)),
    decreases starts.len(),
{
    if starts.len() > 0 {
        let a = starts.drop_last();
        let s = v.zone_names_of(a);
        let w = v.zone_names_of(starts);
        let l = starts.last();
        lemma_all_zones_only(v, a);
        if v.zoned(l) {
            law_merged_holds(s, v.zones[l].1.names);
            crate::names::law_merged_has_no_repeats(s, v.zones[l].1.names);
            assert forall|i: int| 0 <= i < w.len() implies listed_somewhere(v, #[trigger] w[i]) by {
                if s.contains(w[i]) {
                    let j = choose|j: int| 0 <= j < s.len() && s[j] == w[i];
                    assert(listed_somewhere(v, s[j]));
                    let k = choose|k: u16| #[trigger] zone_of(v, k, s[j]);
                    assert(zone_of(v, k, w[i]));
                } else {
                    assert(zone_of(v, l, w[i]));
                }
            }
        }
    }
}

} // verus!
