//! Zone names are matched without regard to the case of ASCII letters.

use vstd::prelude::*;
use vstd::slice::*;

verus! {

/// The lower-case form of an ASCII letter; any other character as it is.
pub open spec fn lower_char(c: char) -> char {
    if 'A' <= c <= 'Z' {
        (c as u32 + 32) as char
    } else {
        c
    }
}

/// A name with its ASCII letters in lower case.
pub open spec fn lower(s: Seq<char>) -> Seq<char> {
    Seq::new(s.len(), |i: int| lower_char(s[i]))
}

/// Two spellings of one name.
pub open spec fn same_name(a: Seq<char>, b: Seq<char>) -> bool {
    lower(a) == lower(b)
}

/// Whether a spelling of `name` stands among `names`.
pub open spec fn holds_name(names: Seq<Seq<char>>, name: Seq<char>) -> bool {
    exists|i: int| 0 <= i < names.len() && same_name(#[trigger] names[i], name)
}

/// `str::eq_ignore_ascii_case`: two strings match when they are equal once
/// every ASCII letter in them is put in lower case.
pub assume_specification[ str::eq_ignore_ascii_case ](a: &str, b: &str) -> (r: bool)
    ensures
        r == same_name(a@, b@),
;

/// Whether a spelling of `name` stands among `names`.
pub fn holds(names: &Vec<String>, name: &str) -> (r: bool)
    ensures
        r == holds_name(names.deep_view(), name@),
{
    let ghost ns = names.deep_view();
    let mut i: usize = 0;
    while i < names.len()
        invariant
            i <= names@.len(),
            ns == names.deep_view(),
            forall|j: int| 0 <= j < i ==> !same_name(#[trigger] ns[j], name@),
        decreases names@.len() - i,
    {
        assert(ns[i as int] == names@[i as int]@);
        if names[i].as_str().eq_ignore_ascii_case(name) {
            return true;
        }
        i = i + 1;
    }
    false
}

/// A list with the names of `more` that it lacks added at its end, in order.
pub open spec fn merged(names: Seq<Seq<char>>, more: Seq<Seq<char>>) -> Seq<Seq<char>>
    decreases more.len(),
{
    if more.len() == 0 {
        names
    } else {
        let m = merged(names, more.drop_last());
        if holds_name(m, more.last()) {
            m
        } else {
            m.push(more.last())
        }
    }
}

/// Adds the names of `more` that `names` lacks.
pub fn merge_names(names: &mut Vec<String>, more: &[String])
    ensures
        final(names).deep_view() == merged(old(names).deep_view(), more.deep_view()),
{
    let ghost start = names.deep_view();
    let ghost ms = more.deep_view();
    assert(ms.take(0) =~= Seq::empty());
    let mut i: usize = 0;
    while i < more.len()
        invariant
            i <= more@.len(),
            ms == more.deep_view(),
            names.deep_view() == merged(start, ms.take(i as int)),
        decreases more@.len() - i,
    {
        let ghost before = names.deep_view();
        assert(ms.take(i + 1).drop_last() =~= ms.take(i as int));
        assert(ms.take(i + 1).last() == more@[i as int]@);
        if !holds(names, more[i].as_str()) {
            let n = more[i].clone();
            let ghost nv = n@;
            names.push(n);
            assert(names.deep_view() =~= before.push(nv));
        }
        i = i + 1;
    }
    assert(ms.take(i as int) =~= ms);
}

/// A copy of a list of names.
pub fn clone_names(names: &[String]) -> (r: Vec<String>)
    ensures
        r.deep_view() == names.deep_view(),
{
    let mut out: Vec<String> = Vec::new();
    let mut i: usize = 0;
    while i < names.len()
        invariant
            i <= names@.len(),
            out.deep_view() == names.deep_view().take(i as int),
        decreases names@.len() - i,
    {
        let n = names[i].clone();
        let ghost nv = n@;
        let ghost before = out.deep_view();
        out.push(n);
        assert(out.deep_view() =~= before.push(nv));
        i = i + 1;
        assert(out.deep_view() =~= names.deep_view().take(i as int));
    }
    assert(out.deep_view() =~= names.deep_view());
    out
}

/// No two spellings of one name.
pub open spec fn distinct_names(names: Seq<Seq<char>>) -> bool {
    forall|i: int, j: int|
        0 <= i < j < names.len() ==> !same_name(#[trigger] names[i], #[trigger] names[j])
}

/// Law: merging never makes a list hold one name twice.
pub proof fn law_merged_has_no_repeats(names: Seq<Seq<char>>, more: Seq<Seq<char>>)
    requires
        distinct_names(names),
    ensures
        distinct_names(merged(names, more)),
    decreases more.len(),
{
    if more.len() > 0 {
        law_merged_has_no_repeats(names, more.drop_last());
        let m = merged(names, more.drop_last());
        let r = merged(names, more);
        if !holds_name(m, more.last()) {
            assert(r == m.push(more.last()));
            assert forall|i: int, j: int| 0 <= i < j < r.len() implies !same_name(
                #[trigger] r[i],
                #[trigger] r[j],
            ) by {
                assert(r[i] == m[i]);
                if j < m.len() {
                    assert(r[j] == m[j]);
                }
            }
        }
    }
}

/// Law: a merged list begins with what was there, holds every name merged in
/// some spelling, and holds nothing else.
pub proof fn law_merged_holds(names: Seq<Seq<char>>, more: Seq<Seq<char>>)
    ensures
        names.is_prefix_of(merged(names, more)),
        forall|i: int| 0 <= i < more.len() ==> holds_name(merged(names, more), #[trigger] more[i]),
        forall|i: int|
            0 <= i < merged(names, more).len() ==> names.contains(#[trigger] merged(names, more)[i])
                || more.contains(merged(names, more)[i]),
    decreases more.len(),
{
    let r = merged(names, more);
    if more.len() > 0 {
        let b = more.drop_last();
        law_merged_holds(names, b);
        let m = merged(names, b);
        assert forall|i: int| 0 <= i < more.len() implies holds_name(r, #[trigger] more[i]) by {
            if i < b.len() {
                assert(b[i] == more[i]);
                let k = choose|k: int| 0 <= k < m.len() && same_name(#[trigger] m[k], b[i]);
                assert(same_name(r[k], more[i]));
            } else if !holds_name(m, more.last()) {
                assert(same_name(r[m.len() as int], more[i]));
            }
        }
        assert forall|i: int| 0 <= i < r.len() implies names.contains(#[trigger] r[i])
            || more.contains(r[i]) by {
            if i < m.len() {
                assert(r[i] == m[i]);
                if b.contains(m[i]) {
                    let k = choose|k: int| 0 <= k < b.len() && b[k] == m[i];
                    assert(more[k] == r[i]);
                }
            } else {
                assert(more[more.len() - 1] == r[i]);
            }
        }
    } else {
        assert forall|i: int| 0 <= i < r.len() implies names.contains(#[trigger] r[i])
            || more.contains(r[i]) by {
            assert(names[i] == r[i]);
        }
    }
}

/// Law: two names are one when they are equal but for the case of the letters A
/// to Z: they are equally long, and where they differ the one has the small
/// letter of the other.
pub proof fn law_names_match_but_for_case(a: Seq<char>, b: Seq<char>)
    ensures
        same_name(a, b) <==> a.len() == b.len() && forall|i: int|
            0 <= i < a.len() ==> (#[trigger] a[i]) == b[i] || ('A' <= a[i] <= 'Z' && b[i] as u32
                == a[i] as u32 + 32) || ('A' <= b[i] <= 'Z' && a[i] as u32 == b[i] as u32 + 32),
{
    if same_name(a, b) {
        assert(lower(a).len() == a.len() && lower(b).len() == b.len());
        assert forall|i: int| 0 <= i < a.len() implies (#[trigger] a[i]) == b[i] || ('A' <= a[i]
            <= 'Z' && b[i] as u32 == a[i] as u32 + 32) || ('A' <= b[i] <= 'Z' && a[i] as u32
            == b[i] as u32 + 32) by {
            assert(lower(a)[i] == lower(b)[i]);
        }
    }
    if a.len() == b.len() && (forall|i: int|
        0 <= i < a.len() ==> (#[trigger] a[i]) == b[i] || ('A' <= a[i] <= 'Z' && b[i] as u32
            == a[i] as u32 + 32) || ('A' <= b[i] <= 'Z' && a[i] as u32 == b[i] as u32 + 32)) {
        assert forall|i: int| 0 <= i < a.len() implies lower(a)[i] == lower(b)[i] by {
            assert(a[i] == b[i] || ('A' <= a[i] <= 'Z' && b[i] as u32 == a[i] as u32 + 32) || ('A'
                <= b[i] <= 'Z' && a[i] as u32 == b[i] as u32 + 32));
        }
        assert(lower(a) =~= lower(b));
    }
}

} // verus!
