//! The order names are listed in: by characters, as a dictionary that knows
//! only code points would.

use vstd::prelude::*;

use crate::chars;
use crate::wire::nbp::{NbpTuple, NbpTupleView};

verus! {

/// Whether one text comes before another.
pub open spec fn before(a: Seq<char>, b: Seq<char>) -> bool
    decreases b.len(),
{
    if b.len() == 0 {
        false
    } else if a.len() == 0 {
        true
    } else if a[0] != b[0] {
        a[0] < b[0]
    } else {
        before(a.drop_first(), b.drop_first())
    }
}

/// Whether one text comes before another.
pub fn comes_before(a: &str, b: &str) -> (r: bool)
    ensures
        r == before(a@, b@),
{
    let x = chars::chars(a);
    let y = chars::chars(b);
    let mut i: usize = 0;
    assert(x@.skip(0) =~= x@);
    assert(y@.skip(0) =~= y@);
    while i < x.len() && i < y.len() && x[i] == y[i]
        invariant
            i <= x@.len(),
            i <= y@.len(),
            x@ == a@,
            y@ == b@,
            before(a@, b@) == before(x@.skip(i as int), y@.skip(i as int)),
        decreases x@.len() - i,
    {
        assert(x@.skip(i as int).drop_first() =~= x@.skip(i + 1));
        assert(y@.skip(i as int).drop_first() =~= y@.skip(i + 1));
        i = i + 1;
    }
    if i >= y.len() {
        false
    } else if i >= x.len() {
        true
    } else {
        x[i] < y[i]
    }
}

/// Two texts come one before the other, unless they are the same.
pub proof fn lemma_before_total(a: Seq<char>, b: Seq<char>)
    ensures
        before(a, b) || before(b, a) || a == b,
        !(before(a, b) && before(b, a)),
        a == b ==> !before(a, b),
    decreases a.len(),
{
    if a.len() > 0 && b.len() > 0 && a[0] == b[0] {
        lemma_before_total(a.drop_first(), b.drop_first());
        if a.drop_first() == b.drop_first() {
            assert(a =~= seq![a[0]] + a.drop_first());
            assert(b =~= seq![b[0]] + b.drop_first());
        }
    } else if a.len() == 0 && b.len() == 0 {
        assert(a =~= b);
    }
}

pub proof fn lemma_before_transitive(a: Seq<char>, b: Seq<char>, c: Seq<char>)
    requires
        before(a, b),
        before(b, c),
    ensures
        before(a, c),
    decreases a.len(),
{
    if a.len() > 0 && a[0] == b[0] && b[0] == c[0] {
        lemma_before_transitive(a.drop_first(), b.drop_first(), c.drop_first());
    }
}

/// Entities are listed by object, then by type.
pub open spec fn listed_before(a: NbpTupleView, b: NbpTupleView) -> bool {
    before(a.object, b.object) || (a.object == b.object && before(a.typ, b.typ))
}

proof fn lemma_listed(a: NbpTupleView, b: NbpTupleView, c: NbpTupleView)
    ensures
        !(listed_before(a, b) && listed_before(b, a)),
        listed_before(a, b) && listed_before(b, c) ==> listed_before(a, c),
        !listed_before(b, a) && listed_before(b, c) ==> listed_before(a, c),
        listed_before(a, b) && !listed_before(c, b) ==> listed_before(a, c),
{
    lemma_before_total(a.object, b.object);
    lemma_before_total(b.object, c.object);
    lemma_before_total(a.object, c.object);
    lemma_before_total(a.typ, b.typ);
    lemma_before_total(b.typ, c.typ);
    lemma_before_total(a.typ, c.typ);
    if before(a.object, b.object) && before(b.object, c.object) {
        lemma_before_transitive(a.object, b.object, c.object);
    }
    if before(a.typ, b.typ) && before(b.typ, c.typ) {
        lemma_before_transitive(a.typ, b.typ, c.typ);
    }
}

/// One entity put in its place, behind those it does not come before.
pub open spec fn placed(s: Seq<NbpTupleView>, t: NbpTupleView) -> Seq<NbpTupleView>
    decreases s.len(),
{
    if s.len() == 0 {
        seq![t]
    } else if listed_before(t, s.last()) {
        placed(s.drop_last(), t).push(s.last())
    } else {
        s.push(t)
    }
}

/// Entities in the order they are listed; those with the same name keep the
/// order they came in.
pub open spec fn listed(ts: Seq<NbpTupleView>) -> Seq<NbpTupleView>
    decreases ts.len(),
{
    if ts.len() == 0 {
        Seq::empty()
    } else {
        placed(listed(ts.drop_last()), ts.last())
    }
}

/// Where an entity is placed.
proof fn lemma_placed(s: Seq<NbpTupleView>, t: NbpTupleView, at: int)
    requires
        0 <= at <= s.len(),
        forall|k: int| at <= k < s.len() ==> listed_before(t, #[trigger] s[k]),
        at > 0 ==> !listed_before(t, s[at - 1]),
    ensures
        placed(s, t) == s.insert(at, t),
    decreases s.len(),
{
    if at < s.len() {
        let a = s.drop_last();
        assert(s.last() == s[s.len() - 1]);
        assert forall|k: int| at <= k < a.len() implies listed_before(t, #[trigger] a[k]) by {
            assert(a[k] == s[k]);
        }
        lemma_placed(a, t, at);
        assert(a.insert(at, t).push(s.last()) =~= s.insert(at, t));
    } else {
        if s.len() > 0 {
            assert(s.last() == s[at - 1]);
        }
        assert(s.insert(at, t) =~= placed(s, t));
    }
}

/// Whether one entity is listed before another.
fn is_listed_before(a: &NbpTuple, b: &NbpTuple) -> (r: bool)
    ensures
        r == listed_before(a.deep_view(), b.deep_view()),
{
    comes_before(a.object.as_str(), b.object.as_str()) || (a.object == b.object && comes_before(
        a.typ.as_str(),
        b.typ.as_str(),
    ))
}

/// Puts entities in the order they are listed.
pub fn list(ts: Vec<NbpTuple>) -> (r: Vec<NbpTuple>)
    ensures
        r.deep_view() == listed(ts.deep_view()),
{
    let ghost all = ts.deep_view();
    let mut left = ts;
    let mut out: Vec<NbpTuple> = Vec::new();
    let ghost mut done: int = 0;
    assert(all.take(0) =~= Seq::empty());
    assert(left.deep_view() =~= all.skip(0));
    assert(out.deep_view() =~= Seq::empty());
    while left.len() > 0
        invariant
            0 <= done <= all.len(),
            left.deep_view() == all.skip(done),
            out.deep_view() == listed(all.take(done)),
        decreases left@.len(),
    {
        let ghost before_v = left.deep_view();
        assert(before_v.len() == left@.len());
        assert(before_v[0] == left@[0].deep_view());
        let t = left.remove(0);
        proof {
            assert(left.deep_view() =~= all.skip(done).drop_first());
            assert(all.skip(done).drop_first() =~= all.skip(done + 1));
            assert(all.take(done + 1).drop_last() =~= all.take(done));
            assert(all.take(done + 1).last() == t.deep_view());
        }
        let ghost ov = out.deep_view();
        let ghost tv = t.deep_view();
        let mut at: usize = out.len();
        while at > 0 && is_listed_before(&t, &out[at - 1])
            invariant
                at <= out@.len(),
                ov == out.deep_view(),
                ov.len() == out@.len(),
                tv == t.deep_view(),
                forall|k: int| at <= k < ov.len() ==> listed_before(tv, #[trigger] ov[k]),
            decreases at,
        {
            assert(ov[at - 1] == out@[at - 1].deep_view());
            at = at - 1;
        }
        proof {
            if at > 0 {
                assert(ov[at - 1] == out@[at - 1].deep_view());
            }
            lemma_placed(ov, tv, at as int);
        }
        out.insert(at, t);
        assert(out.deep_view() =~= ov.insert(at as int, tv));
        proof {
            done = done + 1;
        }
    }
    assert(left.deep_view().len() == 0);
    assert(all.take(done) =~= all);
    out
}

/// In order: nothing is listed behind what it comes before.
pub open spec fn in_order(s: Seq<NbpTupleView>) -> bool {
    forall|i: int, j: int|
        0 <= i < j < s.len() ==> !listed_before(#[trigger] s[j], #[trigger] s[i])
}

proof fn lemma_placed_in_order(s: Seq<NbpTupleView>, t: NbpTupleView)
    requires
        in_order(s),
    ensures
        in_order(placed(s, t)),
        placed(s, t).len() == s.len() + 1,
        placed(s, t).to_multiset() == s.to_multiset().insert(t),
        forall|i: int|
            0 <= i < placed(s, t).len() ==> #[trigger] placed(s, t)[i] == t || s.contains(
                placed(s, t)[i],
            ),
    decreases s.len(),
{
    broadcast use vstd::seq_lib::group_to_multiset_ensures;

    let p = placed(s, t);
    if s.len() == 0 {
        assert(p =~= s.push(t));
    } else if listed_before(t, s.last()) {
        let a = s.drop_last();
        let l = s.last();
        let q = placed(a, t);
        assert forall|i: int, j: int| 0 <= i < j < a.len() implies !listed_before(
            #[trigger] a[j],
            #[trigger] a[i],
        ) by {
            assert(a[i] == s[i] && a[j] == s[j]);
        }
        lemma_placed_in_order(a, t);
        assert(s =~= a.push(l));
        assert(p.to_multiset() =~= s.to_multiset().insert(t));
        assert forall|i: int| 0 <= i < p.len() implies #[trigger] p[i] == t || s.contains(p[i]) by {
            if i < q.len() {
                assert(p[i] == q[i]);
                if q[i] != t {
                    let k = choose|k: int| 0 <= k < a.len() && a[k] == q[i];
                    assert(s[k] == p[i]);
                }
            } else {
                assert(p[i] == s[s.len() - 1]);
            }
        }
        assert forall|i: int, j: int| 0 <= i < j < p.len() implies !listed_before(
            #[trigger] p[j],
            #[trigger] p[i],
        ) by {
            assert(p[i] == q[i]);
            if j < q.len() {
                assert(p[j] == q[j]);
            } else {
                assert(p[j] == l);
                if q[i] == t {
                    lemma_listed(t, l, t);
                } else {
                    let k = choose|k: int| 0 <= k < a.len() && a[k] == q[i];
                    assert(s[k] == q[i] && s[s.len() - 1] == l);
                }
            }
        }
    } else {
        assert forall|i: int| 0 <= i < p.len() implies #[trigger] p[i] == t || s.contains(p[i]) by {
            if i < s.len() {
                assert(p[i] == s[i]);
            }
        }
        assert forall|i: int, j: int| 0 <= i < j < p.len() implies !listed_before(
            #[trigger] p[j],
            #[trigger] p[i],
        ) by {
            assert(p[i] == s[i]);
            if j < s.len() {
                assert(p[j] == s[j]);
            } else {
                // The last one does not come after `t`, and none before it
                // comes after the last one.
                assert(p[j] == t);
                if i < s.len() - 1 {
                    assert(s.last() == s[s.len() - 1]);
                    assert(!listed_before(s[s.len() - 1], s[i]));
                    lemma_listed(t, s[i], s[s.len() - 1]);
                }
            }
        }
    }
}

/// Law: listing puts entities in order and neither loses, repeats nor invents
/// one.
pub proof fn law_listing_sorts(ts: Seq<NbpTupleView>)
    ensures
        in_order(listed(ts)),
        listed(ts).to_multiset() == ts.to_multiset(),
    decreases ts.len(),
{
    broadcast use vstd::seq_lib::group_to_multiset_ensures;

    if ts.len() > 0 {
        law_listing_sorts(ts.drop_last());
        lemma_placed_in_order(listed(ts.drop_last()), ts.last());
        assert(ts =~= ts.drop_last().push(ts.last()));
    }
}

/// Law: of two texts the first comes before the other where, behind what they
/// begin with alike, it has ended or has the lesser character.
pub proof fn law_texts_are_ordered(a: Seq<char>, b: Seq<char>)
    ensures
        before(a, b) <==> exists|k: int| #[trigger] parts_before(a, b, k),
    decreases a.len(),
{
    if a.len() > 0 && b.len() > 0 && a[0] == b[0] {
        let x = a.drop_first();
        let y = b.drop_first();
        law_texts_are_ordered(x, y);
        if before(a, b) {
            let k = choose|k: int| #[trigger] parts_before(x, y, k);
            assert forall|i: int| 0 <= i < k + 1 implies #[trigger] a[i] == b[i] by {
                if i > 0 {
                    assert(x[i - 1] == y[i - 1]);
                }
            }
            assert(parts_before(a, b, k + 1));
        }
        if exists|k: int| #[trigger] parts_before(a, b, k) {
            let k = choose|k: int| #[trigger] parts_before(a, b, k);
            assert forall|i: int| 0 <= i < k - 1 implies #[trigger] x[i] == y[i] by {
                assert(a[i + 1] == b[i + 1]);
            }
            assert(parts_before(x, y, k - 1));
        }
    } else {
        if before(a, b) {
            assert(parts_before(a, b, 0));
        }
        if exists|k: int| #[trigger] parts_before(a, b, k) {
            let k = choose|k: int| #[trigger] parts_before(a, b, k);
            if k > 0 {
                assert(a[0] == b[0]);
            }
        }
    }
}

/// The texts are alike up to `k`, and there the first ends or has the lesser
/// character.
pub open spec fn parts_before(a: Seq<char>, b: Seq<char>, k: int) -> bool {
    &&& 0 <= k <= a.len() && k < b.len()
    &&& forall|i: int| 0 <= i < k ==> (#[trigger] a[i]) == b[i]
    &&& k == a.len() || a[k] < b[k]
}

/// Law: in a list no entity stands behind one with a greater object, nor behind
/// one with the same object and a greater type; and those that agree in both
/// stand as they came.
pub proof fn law_listing_is_by_object_and_type(
    ts: Seq<NbpTupleView>,
    i: int,
    j: int,
    object: Seq<char>,
    typ: Seq<char>,
)
    requires
        0 <= i < j < listed(ts).len(),
    ensures
        ({
            let a = listed(ts)[i];
            let b = listed(ts)[j];
            &&& !before(b.object, a.object)
            &&& a.object == b.object ==> !before(b.typ, a.typ)
        }),
        ({
            let same = |t: NbpTupleView| t.object == object && t.typ == typ;
            listed(ts).filter(same) == ts.filter(same)
        }),
{
    law_listing_sorts(ts);
    lemma_listed_stable(ts, |t: NbpTupleView| t.object == object && t.typ == typ, object, typ);
}

proof fn lemma_listed_stable(
    ts: Seq<NbpTupleView>,
    same: spec_fn(NbpTupleView) -> bool,
    object: Seq<char>,
    typ: Seq<char>,
)
    requires
        same == (|t: NbpTupleView| t.object == object && t.typ == typ),
    ensures
        listed(ts).filter(same) == ts.filter(same),
    decreases ts.len(),
{
    reveal(Seq::filter);
    if ts.len() > 0 {
        let a = ts.drop_last();
        lemma_listed_stable(a, same, object, typ);
        lemma_placed_stable(listed(a), ts.last(), same, object, typ);
    }
}

proof fn lemma_placed_stable(
    s: Seq<NbpTupleView>,
    t: NbpTupleView,
    same: spec_fn(NbpTupleView) -> bool,
    object: Seq<char>,
    typ: Seq<char>,
)
    requires
        same == (|t: NbpTupleView| t.object == object && t.typ == typ),
    ensures
        placed(s, t).filter(same) == (if same(t) {
            s.filter(same).push(t)
        } else {
            s.filter(same)
        }),
    decreases s.len(),
{
    reveal(Seq::filter);
    if s.len() == 0 {
        assert(seq![t].drop_last() =~= s);
        assert(seq![t].last() == t);
    } else if listed_before(t, s.last()) {
        lemma_placed_stable(s.drop_last(), t, same, object, typ);
        let p = placed(s.drop_last(), t);
        assert(p.push(s.last()).drop_last() =~= p);
        lemma_before_total(t.object, s.last().object);
        lemma_before_total(t.typ, s.last().typ);
    } else {
        assert(s.push(t).drop_last() =~= s);
    }
}

} // verus!
