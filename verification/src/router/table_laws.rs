//! What the routing tables keep, whatever is learned, aged or removed.

use vstd::prelude::*;

use crate::router::table;
use crate::router::table::{aged_route, aged_routes, find_route, first_from, lemma_first_from, lemma_pick, lemma_settled_best, lemma_starts, overlap, routes_without, starts_in, Route, TablesView, Which, FAR, NOTIFY};
use crate::router::{PortId, Target};
use crate::wire::{Addr, NetworkTuple};

verus! {

/// Law: the best route to a network is usable and reaches it; no usable route
/// that reaches it is shorter, and among the equally short the incumbent is
/// kept. There is a best route exactly when some usable route reaches the
/// network.
pub proof fn law_best_is_shortest(v: TablesView, net: u16)
    ensures
        match v.pick(Which::Net(net)) {
            Some(b) => {
                &&& v.routes.contains(b)
                &&& b.state.carries() && b.reaches(net)
                &&& forall|i: int|
                    0 <= i < v.routes.len() && (#[trigger] v.routes[i]).state.carries()
                        && v.routes[i].reaches(net) ==> {
                        &&& b.distance <= v.routes[i].distance
                        &&& (b.distance == v.routes[i].distance && v.incumbent(v.routes[i])
                            ==> v.incumbent(b))
                    }
            },
            None => forall|i: int|
                0 <= i < v.routes.len() ==> !((#[trigger] v.routes[i]).state.carries()
                    && v.routes[i].reaches(net)),
        },
{
    lemma_pick(v, v.routes, Which::Net(net));
}

/// The incumbent recorded for a range start is its best route.
pub open spec fn best_ok(v: TablesView, k: u16) -> bool {
    &&& v.best.contains_key(k) <==> v.best_from(k) is Some
    &&& v.best_from(k) matches Some(r) ==> v.best[k] == r.id()
}

/// Every best route is recorded as the incumbent of its range start, nothing
/// else is, and a zone list belongs to a range that some route reaches.
pub open spec fn consistent(v: TablesView) -> bool {
    &&& forall|k: u16| #[trigger] best_ok(v, k)
    &&& forall|k: u16| #[trigger] v.zones.contains_key(k) ==> v.has_start(k)
}

/// Two routes are for the same range or share no network.
pub open spec fn ranges_apart(routes: Seq<Route>) -> bool {
    forall|i: int, j: int|
        0 <= i < routes.len() && 0 <= j < routes.len() ==> (#[trigger] routes[i]).range == (
        #[trigger] routes[j]).range || !overlap(routes[i].range, routes[j].range)
}

/// The best route from a start depends on the routes with that start and the
/// incumbent recorded for it, on nothing else.
proof fn lemma_same_best(v: TablesView, n: TablesView, k: u16)
    requires
        v.routes == n.routes,
        v.best.contains_key(k) == n.best.contains_key(k),
        v.best.contains_key(k) ==> v.best[k] == n.best[k],
    ensures
        v.best_from(k) == n.best_from(k),
{
    let w = Which::Start(k);
    lemma_pick(v, v.routes, w);
    lemma_pick(n, v.routes, w);
}

/// Replacing routes and settling every start that the change touches keeps
/// the tables consistent.
proof fn lemma_with_routes_consistent(v: TablesView, routes: Seq<Route>, starts: Seq<u16>)
    requires
        consistent(v),
        forall|k: u16|
            !(#[trigger] starts.contains(k)) ==> (TablesView { routes, ..v }).best_from(k)
                == v.best_from(k) && (TablesView { routes, ..v }).has_start(k) == v.has_start(k),
    ensures
        consistent(v.with_routes(routes, starts)),
{
    let m = TablesView { routes, ..v };
    let n = m.settled(starts);
    assert forall|k: u16| #[trigger] best_ok(n, k) by {
        lemma_settled_best(m, starts, k);
        if !starts.contains(k) {
            assert(best_ok(v, k));
        }
    }
    assert forall|k: u16| #[trigger] n.zones.contains_key(k) implies n.has_start(k) by {
        assert(v.zones.contains_key(k));
        assert(v.has_start(k));
        if starts.contains(k) {
            assert(m.has_start(k));
        } else {
            assert(m.has_start(k) == v.has_start(k));
        }
        let i = choose|i: int| 0 <= i < m.routes.len() && (#[trigger] m.routes[i]).range.0 == k;
        assert(n.routes[i].range.0 == k);
    }
}

/// Where a learned route goes.
pub proof fn lemma_find(routes: Seq<Route>, range: (u16, u16), target: Target, next: Addr)
    ensures
        find_route(routes, range, target, next) matches Some(i) ==> 0 <= i < routes.len()
            && routes[i].range == range && routes[i].target == target && routes[i].next == next,
    decreases routes.len(),
{
    if routes.len() > 0 {
        lemma_find(routes.drop_last(), range, target, next);
    }
}

/// Changing one route, or adding one at the end, leaves the best routes of
/// every other start alone.
proof fn lemma_elsewhere_same(v: TablesView, routes: Seq<Route>, at: int, e: Route, k: u16)
    requires
        (0 <= at < v.routes.len() && routes == v.routes.update(at, e) && v.routes[at].range
            == e.range) || routes == v.routes.push(e),
        e.range.0 != k,
    ensures
        (TablesView { routes, ..v }).best_from(k) == v.best_from(k),
        (TablesView { routes, ..v }).has_start(k) == v.has_start(k),
{
    let n = TablesView { routes, ..v };
    let w = Which::Start(k);
    lemma_pick(v, v.routes, w);
    lemma_pick(n, routes, w);
    assert forall|i: int| 0 <= i < v.routes.len() && (#[trigger] routes[i]).range.0
        == k implies routes[i] == v.routes[i] by {}
    assert forall|i: int| 0 <= i < v.routes.len() && (#[trigger] v.routes[i]).range.0
        == k implies routes[i] == v.routes[i] by {}
    if v.has_start(k) {
        let i = choose|i: int| 0 <= i < v.routes.len() && (#[trigger] v.routes[i]).range.0 == k;
        assert(routes[i].range.0 == k);
    }
    if n.has_start(k) {
        let i = choose|i: int| 0 <= i < routes.len() && (#[trigger] routes[i]).range.0 == k;
        assert(v.routes[i].range.0 == k);
    }
    match v.pick_index(v.routes, w) {
        Some(i) => {
            assert(v.routes[i].range.0 == k);
            assert(routes[i] == v.routes[i]);
            match n.pick_index(routes, w) {
                Some(j) => {
                    assert(routes[j].range.0 == k);
                    assert(v.routes[j] == routes[j]);
                },
                None => {},
            }
        },
        None => {
            match n.pick_index(routes, w) {
                Some(j) => {
                    assert(routes[j].range.0 == k);
                    assert(v.routes[j] == routes[j]);
                },
                None => {},
            }
        },
    }
}

/// Law: learning a tuple keeps the tables consistent and their ranges apart.
pub proof fn law_learn_keeps(v: TablesView, t: NetworkTuple, target: Target, next: Addr, now: u64)
    requires
        consistent(v),
        ranges_apart(v.routes),
    ensures
        consistent(v.learn(t, target, next, now)),
        ranges_apart(v.learn(t, target, next, now).routes),
{
    if !v.clashes(t.range) {
        let e = TablesView::entry_for(t, target, next, now);
        let rs = v.learned_routes(t, target, next, now);
        let starts = seq![t.range.0];
        lemma_find(v.routes, t.range, target, next);
        assert(starts[0] == t.range.0);
        assert forall|k: u16| !(#[trigger] starts.contains(k)) implies (TablesView {
            routes: rs,
            ..v
        }).best_from(k) == v.best_from(k) && (TablesView { routes: rs, ..v }).has_start(k)
            == v.has_start(k) by {
            match find_route(v.routes, t.range, target, next) {
                Some(i) => {
                    if !v.routes[i].own() {
                        assert(starts.contains(starts[0]));
                        lemma_elsewhere_same(v, rs, i, e, k);
                    }
                },
                None => {
                    assert(starts.contains(starts[0]));
                    lemma_elsewhere_same(v, rs, 0, e, k);
                },
            }
        }
        lemma_with_routes_consistent(v, rs, starts);
        assert forall|i: int, j: int| 0 <= i < rs.len() && 0 <= j < rs.len() implies (
        #[trigger] rs[i]).range == (#[trigger] rs[j]).range || !overlap(
            rs[i].range,
            rs[j].range,
        ) by {
            if i < v.routes.len() {
                assert(rs[i].range == v.routes[i].range);
                assert(v.routes[i].range == t.range || !overlap(v.routes[i].range, t.range));
            }
            if j < v.routes.len() {
                assert(rs[j].range == v.routes[j].range);
                assert(v.routes[j].range == t.range || !overlap(v.routes[j].range, t.range));
            }
        }
    }
}

/// Law: a directly attached network, added, keeps the tables consistent.
pub proof fn law_add_port_keeps(
    v: TablesView,
    port: PortId,
    range: (u16, u16),
    extended: bool,
    zones: Seq<Seq<char>>,
    now: u64,
)
    requires
        consistent(v),
    ensures
        consistent(v.add_port(port, range, extended, zones, now)),
{
    let n = v.add_port(port, range, extended, zones, now);
    let e = n.routes.last();
    let at = v.routes.len() as int;
    assert(n.routes[at] == e);
    assert forall|k: u16| #[trigger] best_ok(n, k) by {
        if k != range.0 {
            let m = TablesView { routes: n.routes, ..v };
            lemma_elsewhere_same(v, n.routes, 0, e, k);
            lemma_same_best(m, n, k);
            assert(best_ok(v, k));
        } else {
            lemma_pick(n, n.routes, Which::Start(k));
            assert(Which::Start(k).hits(n.routes[at]));
            match n.pick_index(n.routes, Which::Start(k)) {
                Some(i) => {
                    if i != at {
                        assert(!n.displaces(e, n.routes[i]));
                        assert(n.incumbent(e));
                        assert(n.incumbent(n.routes[i]));
                    }
                },
                None => {},
            }
        }
    }
    assert forall|k: u16| #[trigger] n.zones.contains_key(k) implies n.has_start(k) by {
        if k == range.0 {
            assert(n.routes[at].range.0 == k);
        } else {
            assert(v.zones.contains_key(k));
            assert(v.has_start(k));
            let i = choose|i: int| 0 <= i < v.routes.len() && (#[trigger] v.routes[i]).range.0 == k;
            assert(n.routes[i].range.0 == k);
        }
    }
}

/// Law: adding zones keeps the tables consistent.
pub proof fn law_add_zones_keeps(
    v: TablesView,
    start: u16,
    more: Seq<Seq<char>>,
    expected: Option<usize>,
)
    requires
        consistent(v),
    ensures
        consistent(v.add_zones(start, more, expected)),
{
    let n = v.add_zones(start, more, expected);
    lemma_first_from(v.routes, start);
    assert forall|k: u16| v.best_from(k) == n.best_from(k) by {
        lemma_same_best(v, n, k);
    }
    assert forall|k: u16| #[trigger] best_ok(n, k) by {
        assert(v.best_from(k) == n.best_from(k));
        assert(best_ok(v, k));
    }
    assert forall|k: u16| #[trigger] n.zones.contains_key(k) implies n.has_start(k) by {
        if k == start && n != v {
            let r = first_from(v.routes, start)->0;
            let i = choose|i: int| 0 <= i < v.routes.len() && v.routes[i] == r;
            assert(n.routes[i].range.0 == k);
        } else {
            assert(v.zones.contains_key(k));
            assert(v.has_start(k));
            let i = choose|i: int| 0 <= i < v.routes.len() && (#[trigger] v.routes[i]).range.0 == k;
            assert(n.routes[i].range.0 == k);
        }
    }
}

/// Law: a look at the validity timer keeps the tables consistent.
pub proof fn law_age_keeps(v: TablesView, now: u64)
    requires
        consistent(v),
    ensures
        consistent(v.age(now)),
{
    let rs = aged_routes(v.routes, now);
    let starts = v.starts();
    let m = TablesView { routes: rs, ..v };
    assert forall|k: u16| !(#[trigger] starts.contains(k)) implies m.best_from(k) == v.best_from(k)
        && m.has_start(k) == v.has_start(k) by {
        lemma_starts(v.routes, k);
        lemma_aged_from(v.routes, now);
        lemma_pick(v, v.routes, Which::Start(k));
        lemma_pick(m, rs, Which::Start(k));
        if m.has_start(k) {
            let i = choose|i: int| 0 <= i < rs.len() && (#[trigger] rs[i]).range.0 == k;
            let j = choose|j: int|
                0 <= j < v.routes.len() && aged_route(#[trigger] v.routes[j], now) == Some(rs[i]);
            assert(v.routes[j].range.0 == k);
        }
        match v.pick_index(v.routes, Which::Start(k)) {
            Some(i) => {
                assert(v.routes[i].range.0 == k);
            },
            None => {},
        }
        match m.pick_index(rs, Which::Start(k)) {
            Some(i) => {
                assert(rs[i].range.0 == k);
            },
            None => {},
        }
    }
    lemma_with_routes_consistent(v, rs, starts);
}

/// Every route left by the timer comes from one that was there.
pub proof fn lemma_aged_from(routes: Seq<Route>, now: u64)
    ensures
        forall|i: int|
            0 <= i < aged_routes(routes, now).len() ==> exists|j: int|
                0 <= j < routes.len() && aged_route(#[trigger] routes[j], now) == Some(
                    #[trigger] aged_routes(routes, now)[i],
                ),
    decreases routes.len(),
{
    if routes.len() > 0 {
        let a = routes.drop_last();
        lemma_aged_from(a, now);
        let s = aged_routes(a, now);
        let rs = aged_routes(routes, now);
        assert forall|i: int| 0 <= i < rs.len() implies exists|j: int|
            0 <= j < routes.len() && aged_route(#[trigger] routes[j], now) == Some(
                #[trigger] rs[i],
            ) by {
            if i < s.len() {
                assert(rs[i] == s[i]);
                let j = choose|j: int|
                    0 <= j < a.len() && aged_route(#[trigger] a[j], now) == Some(s[i]);
                assert(aged_route(routes[j], now) == Some(rs[i]));
            } else {
                assert(aged_route(routes[routes.len() - 1], now) == Some(rs[i]));
            }
        }
    }
}

/// A route the timer spares stays, as it was.
pub proof fn lemma_aged_keeps(routes: Seq<Route>, now: u64, i: int)
    requires
        0 <= i < routes.len(),
        aged_route(routes[i], now) is Some,
    ensures
        aged_routes(routes, now).contains(aged_route(routes[i], now)->0),
    decreases routes.len(),
{
    let a = routes.drop_last();
    let s = aged_routes(a, now);
    let rs = aged_routes(routes, now);
    if i == a.len() {
        assert(rs.last() == aged_route(routes[i], now)->0);
        assert(rs[rs.len() - 1] == rs.last());
    } else {
        lemma_aged_keeps(a, now, i);
        let x = aged_route(routes[i], now)->0;
        let j = choose|j: int| 0 <= j < s.len() && s[j] == x;
        assert(rs[j] == x);
    }
}

/// Law: a directly attached network and a route learned from a peer never
/// age: they are in the tables afterwards exactly as before.
pub proof fn law_own_and_peer_routes_never_age(v: TablesView, now: u64, r: Route)
    requires
        v.routes.contains(r),
        r.own() || r.target is Peer,
    ensures
        v.age(now).routes.contains(r),
{
    let i = choose|i: int| 0 <= i < v.routes.len() && v.routes[i] == r;
    lemma_aged_keeps(v.routes, now, i);
}

/// Law: a directly attached network is never replaced by what a neighbour
/// says of it.
pub proof fn law_own_routes_are_never_replaced(
    v: TablesView,
    t: NetworkTuple,
    target: Target,
    next: Addr,
    now: u64,
    r: Route,
)
    requires
        v.routes.contains(r),
        r.own(),
    ensures
        v.learn(t, target, next, now).routes.contains(r),
{
    lemma_find(v.routes, t.range, target, next);
    let i = choose|i: int| 0 <= i < v.routes.len() && v.routes[i] == r;
    assert(v.learn(t, target, next, now).routes[i] == r);
}

/// Law: an entry nobody confirms is deleted after four steps of the validity
/// timer, and carries no traffic after two.
pub proof fn law_four_steps_to_deletion(r: Route, t1: u64, t2: u64, t3: u64, t4: u64)
    requires
        !r.own(),
        r.target is Port,
        r.state == table::State::Good,
        t1 - r.seen >= table::VALIDITY,
        t2 - t1 >= table::VALIDITY,
        t3 - t2 >= table::VALIDITY,
        t4 - t3 >= table::VALIDITY,
    ensures
        ({
            let a = aged_route(r, t1);
            let b = aged_route(a->0, t2);
            let c = aged_route(b->0, t3);
            let d = aged_route(c->0, t4);
            &&& a is Some && a->0.state.carries()
            &&& b is Some && !b->0.state.carries()
            &&& c is Some && !c->0.state.carries()
            &&& d is None
        }),
{
}

/// What is left when a target's routes are taken out.
pub proof fn lemma_without(routes: Seq<Route>, t: Target, start: Option<u16>)
    ensures
        forall|r: Route|
            #![trigger routes_without(routes, t, start).contains(r)]
            routes_without(routes, t, start).contains(r) <==> routes.contains(r) && !(r.target == t
                && (start is None || start == Some(r.range.0))),
    decreases routes.len(),
{
    if routes.len() > 0 {
        let a = routes.drop_last();
        lemma_without(a, t, start);
        let s = routes_without(a, t, start);
        let w = routes_without(routes, t, start);
        let l = routes.last();
        assert(routes[routes.len() - 1] == l);
        assert forall|r: Route|
            #![trigger w.contains(r)]
            w.contains(r) <==> routes.contains(r) && !(r.target == t && (start is None || start
                == Some(r.range.0))) by {
            assert(s.contains(r) <==> a.contains(r) && !(r.target == t && (start is None || start
                == Some(r.range.0))));
            if a.contains(r) {
                let i = choose|i: int| 0 <= i < a.len() && a[i] == r;
                assert(routes[i] == r);
            }
            if routes.contains(r) && r != l {
                let i = choose|i: int| 0 <= i < routes.len() && routes[i] == r;
                assert(a[i] == r);
            }
            if s.contains(r) {
                let i = choose|i: int| 0 <= i < s.len() && s[i] == r;
                assert(w[i] == r);
            }
            if w != s {
                assert(w[s.len() as int] == l);
            }
            if w.contains(r) && r != l {
                let i = choose|i: int| 0 <= i < w.len() && w[i] == r;
                assert(s[i] == r);
            }
        }
    }
}

/// Law: once a target is removed, no route goes through it, every other one
/// is still there, and a range that lost its last route has lost its zones.
pub proof fn law_remove_target(v: TablesView, t: Target)
    requires
        consistent(v),
    ensures
        forall|r: Route|
            #![trigger v.remove_target(t).routes.contains(r)]
            v.remove_target(t).routes.contains(r) <==> v.routes.contains(r) && r.target != t,
        forall|k: u16| #[trigger]
            v.remove_target(t).zones.contains_key(k) ==> v.remove_target(t).has_start(k),
{
    let rs = routes_without(v.routes, t, None);
    let starts = starts_in(v.routes, Some(t));
    let n = v.remove_target(t);
    lemma_without(v.routes, t, None);
    assert forall|k: u16| #[trigger] n.zones.contains_key(k) implies n.has_start(k) by {
        let m = TablesView { routes: rs, ..v };
        assert(v.zones.contains_key(k));
        assert(v.has_start(k));
        let i = choose|i: int| 0 <= i < v.routes.len() && (#[trigger] v.routes[i]).range.0 == k;
        if starts.contains(k) {
            assert(m.has_start(k));
            let j = choose|j: int| 0 <= j < rs.len() && (#[trigger] rs[j]).range.0 == k;
            assert(n.routes[j].range.0 == k);
        } else {
            lemma_target_starts(v.routes, t, i);
            assert(v.routes.contains(v.routes[i]));
            assert(rs.contains(v.routes[i]));
            let j = choose|j: int| 0 <= j < rs.len() && rs[j] == v.routes[i];
            assert(n.routes[j].range.0 == k);
        }
    }
}

/// Taking routes out leaves the best route of a start they are not from.
proof fn lemma_without_best(
    v: TablesView,
    routes: Seq<Route>,
    t: Target,
    start: Option<u16>,
    k: u16,
)
    requires
        forall|i: int|
            0 <= i < routes.len() && (#[trigger] routes[i]).range.0 == k ==> !(routes[i].target == t
                && (start is None || start == Some(k))),
    ensures
        match v.pick_index(routes, Which::Start(k)) {
            Some(i) => {
                &&& 0 <= i < routes.len()
                &&& v.pick_index(routes_without(routes, t, start), Which::Start(k)) matches Some(j)
                &&& 0 <= j < routes_without(routes, t, start).len()
                &&& routes_without(routes, t, start)[j] == routes[i]
            },
            None => v.pick_index(routes_without(routes, t, start), Which::Start(k)) is None,
        },
    decreases routes.len(),
{
    if routes.len() > 0 {
        let a = routes.drop_last();
        assert forall|i: int| 0 <= i < a.len() && (#[trigger] a[i]).range.0 == k implies !(
        a[i].target == t && (start is None || start == Some(k))) by {
            assert(a[i] == routes[i]);
        }
        lemma_without_best(v, a, t, start, k);
        let w = routes_without(routes, t, start);
        let s = routes_without(a, t, start);
        assert(routes[routes.len() - 1] == routes.last());
        if w != s {
            assert(w.drop_last() =~= s);
            assert(w.last() == routes.last());
        }
    }
}

/// Taking out a target's routes, all of them or those from one start, keeps
/// the tables consistent and their ranges apart.
proof fn lemma_without_keeps(v: TablesView, t: Target, start: Option<u16>, starts: Seq<u16>)
    requires
        consistent(v),
        ranges_apart(v.routes),
        forall|i: int|
            0 <= i < v.routes.len() && (#[trigger] v.routes[i]).target == t && (start is None
                || start == Some(v.routes[i].range.0)) ==> starts.contains(v.routes[i].range.0),
    ensures
        consistent(v.with_routes(routes_without(v.routes, t, start), starts)),
        ranges_apart(routes_without(v.routes, t, start)),
{
    let rs = routes_without(v.routes, t, start);
    let m = TablesView { routes: rs, ..v };
    lemma_without(v.routes, t, start);
    assert forall|k: u16| !(#[trigger] starts.contains(k)) implies m.best_from(k) == v.best_from(k)
        && m.has_start(k) == v.has_start(k) by {
        lemma_without_best(v, v.routes, t, start, k);
        lemma_same_picks(m, v, rs, Which::Start(k));
        if v.has_start(k) {
            let i = choose|i: int| 0 <= i < v.routes.len() && (#[trigger] v.routes[i]).range.0 == k;
            assert(v.routes.contains(v.routes[i]));
            assert(rs.contains(v.routes[i]));
            let j = choose|j: int| 0 <= j < rs.len() && rs[j] == v.routes[i];
            assert(m.routes[j].range.0 == k);
        }
        if m.has_start(k) {
            let j = choose|j: int| 0 <= j < rs.len() && (#[trigger] rs[j]).range.0 == k;
            assert(rs.contains(rs[j]));
            assert(v.routes.contains(rs[j]));
        }
    }
    lemma_with_routes_consistent(v, rs, starts);
    assert forall|i: int, j: int| 0 <= i < rs.len() && 0 <= j < rs.len() implies (
    #[trigger] rs[i]).range == (#[trigger] rs[j]).range || !overlap(
        rs[i].range,
        rs[j].range,
    ) by {
        assert(rs.contains(rs[i]) && rs.contains(rs[j]));
        let x = choose|x: int| 0 <= x < v.routes.len() && v.routes[x] == rs[i];
        let y = choose|y: int| 0 <= y < v.routes.len() && v.routes[y] == rs[j];
        assert(v.routes[x].range == rs[i].range && v.routes[y].range == rs[j].range);
    }
}

/// What is picked depends on the incumbents and the routes given.
proof fn lemma_same_picks(a: TablesView, b: TablesView, routes: Seq<Route>, w: Which)
    requires
        a.best == b.best,
    ensures
        a.pick_index(routes, w) == b.pick_index(routes, w),
    decreases routes.len(),
{
    if routes.len() > 0 {
        lemma_same_picks(a, b, routes.drop_last(), w);
    }
}

/// Law: removing a target keeps the tables consistent and their ranges apart.
pub proof fn law_remove_target_keeps(v: TablesView, t: Target)
    requires
        consistent(v),
        ranges_apart(v.routes),
    ensures
        consistent(v.remove_target(t)),
        ranges_apart(v.remove_target(t).routes),
{
    let starts = starts_in(v.routes, Some(t));
    assert forall|i: int|
        0 <= i < v.routes.len() && (#[trigger] v.routes[i]).target == t implies starts.contains(
        v.routes[i].range.0,
    ) by {
        lemma_target_starts(v.routes, t, i);
    }
    lemma_without_keeps(v, t, None, starts);
}

/// Law: removing a target's routes from one start keeps the tables consistent
/// and their ranges apart.
pub proof fn law_remove_keeps(v: TablesView, t: Target, start: u16)
    requires
        consistent(v),
        ranges_apart(v.routes),
    ensures
        consistent(v.remove(t, start)),
        ranges_apart(v.remove(t, start).routes),
{
    assert(seq![start][0] == start);
    lemma_without_keeps(v, t, Some(start), seq![start]);
}

/// Law: moving a target's routes from one start to another distance keeps the
/// tables consistent and their ranges apart.
pub proof fn law_set_distance_keeps(
    v: TablesView,
    t: Target,
    start: u16,
    distance: u8,
    now: u64,
)
    requires
        consistent(v),
        ranges_apart(v.routes),
    ensures
        consistent(v.set_distance(t, start, distance, now)),
        ranges_apart(v.set_distance(t, start, distance, now).routes),
{
    let rs = v.moved_routes(t, start, distance, now);
    let m = TablesView { routes: rs, ..v };
    let starts = seq![start];
    assert(starts[0] == start);
    assert forall|k: u16| !(#[trigger] starts.contains(k)) implies m.best_from(k) == v.best_from(k)
        && m.has_start(k) == v.has_start(k) by {
        assert(starts.contains(start));
        lemma_moved_best(v, t, start, distance, now, k, v.routes.len());
        assert(v.routes.take(v.routes.len() as int) =~= v.routes);
        assert(rs.take(rs.len() as int) =~= rs);
        lemma_same_picks(m, v, rs, Which::Start(k));
        if v.has_start(k) {
            let i = choose|i: int| 0 <= i < v.routes.len() && (#[trigger] v.routes[i]).range.0 == k;
            assert(rs[i].range.0 == k);
        }
        if m.has_start(k) {
            let i = choose|i: int| 0 <= i < rs.len() && (#[trigger] rs[i]).range.0 == k;
            assert(v.routes[i].range.0 == k);
        }
    }
    lemma_with_routes_consistent(v, rs, starts);
    assert forall|i: int, j: int| 0 <= i < rs.len() && 0 <= j < rs.len() implies (
    #[trigger] rs[i]).range == (#[trigger] rs[j]).range || !overlap(
        rs[i].range,
        rs[j].range,
    ) by {
        assert(v.routes[i].range == rs[i].range && v.routes[j].range == rs[j].range);
    }
}

/// Moving routes leaves the best route of any other start.
proof fn lemma_moved_best(
    v: TablesView,
    t: Target,
    start: u16,
    distance: u8,
    now: u64,
    k: u16,
    n: nat,
)
    requires
        k != start,
        n <= v.routes.len(),
    ensures
        ({
            let a = v.routes.take(n as int);
            let b = v.moved_routes(t, start, distance, now).take(n as int);
            match v.pick_index(a, Which::Start(k)) {
                Some(i) => {
                    &&& 0 <= i < n && a[i] == b[i]
                    &&& v.pick_index(b, Which::Start(k)) == Some(i)
                },
                None => v.pick_index(b, Which::Start(k)) is None,
            }
        }),
    decreases n,
{
    let rs = v.moved_routes(t, start, distance, now);
    let a = v.routes.take(n as int);
    let b = rs.take(n as int);
    if n > 0 {
        let m = (n - 1) as nat;
        lemma_moved_best(v, t, start, distance, now, k, m);
        assert(a.drop_last() =~= v.routes.take(m as int));
        assert(b.drop_last() =~= rs.take(m as int));
        assert(a.last() == v.routes[m as int]);
        assert(b.last() == rs[m as int]);
        assert(a[m as int] == a.last() && b[m as int] == b.last());
        match v.pick_index(v.routes.take(m as int), Which::Start(k)) {
            Some(i) => {
                assert(a[i] == v.routes.take(m as int)[i]);
                assert(b[i] == rs.take(m as int)[i]);
            },
            None => {},
        }
    }
}

/// The starts of a target's routes are listed.
proof fn lemma_target_starts(routes: Seq<Route>, t: Target, i: int)
    requires
        0 <= i < routes.len(),
    ensures
        routes[i].target == t ==> starts_in(routes, Some(t)).contains(routes[i].range.0),
    decreases routes.len(),
{
    let a = routes.drop_last();
    let s = starts_in(a, Some(t));
    let w = starts_in(routes, Some(t));
    if routes[i].target == t {
        let k = routes[i].range.0;
        if i < a.len() {
            lemma_target_starts(a, t, i);
            let j = choose|j: int| 0 <= j < s.len() && s[j] == k;
            assert(w[j] == k);
        } else if s.contains(k) {
            let j = choose|j: int| 0 <= j < s.len() && s[j] == k;
            assert(w[j] == k);
        } else {
            assert(w[s.len() as int] == k);
        }
    }
}

/// Law: a tie keeps the incumbent. A path of the same length or longer through
/// another router changes neither the best route nor anything reported.
pub proof fn law_tie_keeps_the_incumbent(
    v: TablesView,
    t: NetworkTuple,
    target: Target,
    next: Addr,
    now: u64,
)
    requires
        consistent(v),
        v.best_from(t.range.0) is Some,
        v.best_from(t.range.0)->0.id() != (target, next),
        v.best_from(t.range.0)->0.distance <= TablesView::entry_for(
            t,
            target,
            next,
            now,
        ).distance,
    ensures
        v.learn(t, target, next, now).best_from(t.range.0) == v.best_from(t.range.0),
        v.changes(v.learn(t, target, next, now), seq![t.range.0]) == Seq::<
            table::RouteChange,
        >::empty(),
{
    let k = t.range.0;
    let w = Which::Start(k);
    let n = v.learn(t, target, next, now);
    if !v.clashes(t.range) {
        let e = TablesView::entry_for(t, target, next, now);
        let rs = v.learned_routes(t, target, next, now);
        let m = TablesView { routes: rs, ..v };
        lemma_find(v.routes, t.range, target, next);
        lemma_pick(v, v.routes, w);
        lemma_pick(m, rs, w);
        lemma_settled_best(m, seq![k], k);
        let i = v.pick_index(v.routes, w)->0;
        assert(rs[i] == v.routes[i]);
        assert(best_ok(v, k));
        assert(!v.incumbent(e));
        match m.pick_index(rs, w) {
            Some(j) => {
                if rs[j] != e {
                    assert(v.routes[j] == rs[j]);
                }
                assert(rs[j] == v.routes[i]);
            },
            None => {
                assert(rs[i].state.carries() && w.hits(rs[i]));
            },
        }
    }
    assert(seq![k].drop_last() =~= Seq::empty());
    assert(seq![k].last() == k);
    reveal_with_fuel(TablesView::changes, 2);
}

/// What an announced tuple says of a route: it is the best to its range, or
/// its range has gone bad, and it does not go through the port.
pub open spec fn announces(v: TablesView, port: PortId, t: NetworkTuple, r: Route) -> bool {
    &&& v.routes.contains(r) && r.target != Target::Port(port) && r.range == t.range
    &&& (v.best_from(t.range.0) == Some(r) && r.as_tuple() == t) || (v.best_from(t.range.0) is None
        && t.distance == NOTIFY)
}

/// Law, split horizon: every tuple announced on a port is the best route to
/// its range, or notice that the range has gone bad, and goes through some
/// other target.
pub proof fn law_split_horizon(v: TablesView, port: PortId, starts: Seq<u16>, i: int)
    requires
        0 <= i < v.announced_of(starts, port).len(),
    ensures
        exists|r: Route| #[trigger] announces(v, port, v.announced_of(starts, port)[i], r),
    decreases starts.len(),
{
    let a = starts.drop_last();
    let s = v.announced_of(a, port);
    if i < s.len() {
        law_split_horizon(v, port, a, i);
        assert(v.announced_of(starts, port)[i] == s[i]);
    } else {
        let k = starts.last();
        let t = v.announced_of(starts, port)[i];
        match v.best_from(k) {
            Some(r) => {
                lemma_pick(v, v.routes, Which::Start(k));
                assert(announces(v, port, t, r));
            },
            None => {
                lemma_first_from(v.routes, k);
                let r = first_from(v.routes, k)->0;
                assert(announces(v, port, t, r));
            },
        }
    }
}

/// Law: what a peer is told of is our own internet only: a best route through
/// one of our ports, fewer than 15 hops away, with a complete zone list.
pub proof fn law_exports_only_our_internet(v: TablesView, starts: Seq<u16>, i: int)
    requires
        0 <= i < v.exported_of(starts).len(),
    ensures
        ({
            let t = v.exported_of(starts)[i];
            exists|r: Route|
                v.best_from(t.range.0) == Some(r) && #[trigger] r.as_tuple() == t
                    && r.target is Port && r.distance < FAR && v.zoned(t.range.0)
        }),
    decreases starts.len(),
{
    let a = starts.drop_last();
    let s = v.exported_of(a);
    if i < s.len() {
        law_exports_only_our_internet(v, a, i);
        assert(v.exported_of(starts)[i] == s[i]);
    } else {
        let k = starts.last();
        lemma_pick(v, v.routes, Which::Start(k));
        let r = v.best_from(k)->0;
        assert(r.as_tuple() == v.exported_of(starts)[i]);
    }
}

} // verus!
