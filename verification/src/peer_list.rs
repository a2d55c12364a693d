//! A list of peers as text: one IPv4 literal or hostname to a line.

use vstd::prelude::*;
use vstd::string::*;

use crate::chars;
use crate::chars::{all_digits, digits_value};

verus! {

/// The longest hostname.
pub const MAX_HOST: usize = 253;

/// The longest label in a hostname.
pub const MAX_LABEL: usize = 63;

// -------------------------------------------------------------------- splitting

/// What stands between the `c`s of a text; there is always one piece.
pub open spec fn pieces(s: Seq<char>, c: char) -> Seq<Seq<char>>
    decreases s.len(),
{
    if s.len() == 0 {
        seq![Seq::empty()]
    } else {
        let ps = pieces(s.drop_last(), c);
        if s.last() == c {
            ps.push(Seq::empty())
        } else {
            ps.update(ps.len() - 1, ps.last().push(s.last()))
        }
    }
}

proof fn lemma_pieces(s: Seq<char>, c: char)
    ensures
        1 <= pieces(s, c).len() <= s.len() + 1,
    decreases s.len(),
{
    if s.len() > 0 {
        lemma_pieces(s.drop_last(), c);
    }
}

fn split(cs: &Vec<char>, c: char) -> (r: Vec<String>)
    ensures
        r.deep_view() == pieces(cs@, c),
        1 <= r@.len() <= cs@.len() + 1,
{
    let mut out: Vec<String> = Vec::new();
    let mut cur = String::new();
    assert(cs@.take(0) =~= Seq::empty());
    assert(out.deep_view().push(cur@) =~= pieces(cs@.take(0), c));
    let mut i: usize = 0;
    while i < cs.len()
        invariant
            i <= cs@.len(),
            out.deep_view().push(cur@) == pieces(cs@.take(i as int), c),
        decreases cs@.len() - i,
    {
        let x = cs[i];
        let ghost before = out.deep_view();
        let ghost piece = cur@;
        let ghost t = cs@.take(i + 1);
        assert(t.drop_last() =~= cs@.take(i as int));
        assert(t.last() == x);
        let ghost ps = pieces(cs@.take(i as int), c);
        if x == c {
            out.push(cur);
            cur = String::new();
            assert(out.deep_view() =~= ps);
            assert(out.deep_view().push(cur@) =~= pieces(t, c));
        } else {
            cur.push(x);
            assert(ps.last() == piece);
            assert(out.deep_view().push(cur@) =~= pieces(t, c));
        }
        i = i + 1;
    }
    assert(cs@.take(i as int) =~= cs@);
    let ghost before = out.deep_view();
    let ghost piece = cur@;
    out.push(cur);
    assert(out.deep_view() =~= before.push(piece));
    proof {
        lemma_pieces(cs@, c);
        assert(out.deep_view().len() == out@.len());
    }
    out
}

pub open spec fn blank(c: char) -> bool {
    c == ' ' || c == '\t' || c == '\r'
}

/// Without the blanks at the front.
pub open spec fn front_trimmed(s: Seq<char>) -> Seq<char>
    decreases s.len(),
{
    if s.len() > 0 && blank(s[0]) {
        front_trimmed(s.skip(1))
    } else {
        s
    }
}

/// Without the blanks at the end.
pub open spec fn back_trimmed(s: Seq<char>) -> Seq<char>
    decreases s.len(),
{
    if s.len() > 0 && blank(s.last()) {
        back_trimmed(s.drop_last())
    } else {
        s
    }
}

/// Without the blanks at either end.
pub open spec fn stripped(s: Seq<char>) -> Seq<char> {
    back_trimmed(front_trimmed(s))
}

fn is_blank(c: char) -> (r: bool)
    ensures
        r == blank(c),
{
    c == ' ' || c == '\t' || c == '\r'
}

fn strip(cs: &Vec<char>) -> (r: Vec<char>)
    ensures
        r@ == stripped(cs@),
{
    let n: usize = cs.len();
    let mut from: usize = 0;
    assert(cs@.skip(0) =~= cs@);
    while from < n && is_blank(cs[from])
        invariant
            from <= n,
            n == cs@.len(),
            front_trimmed(cs@.skip(from as int)) == front_trimmed(cs@),
        decreases n - from,
    {
        assert(cs@.skip(from as int).skip(1) =~= cs@.skip(from + 1));
        from = from + 1;
    }
    let ghost f = cs@.skip(from as int);
    assert(front_trimmed(f) == f);
    let mut to: usize = n;
    assert(cs@.subrange(from as int, n as int) =~= f);
    while to > from && is_blank(cs[to - 1])
        invariant
            from <= to <= n,
            n == cs@.len(),
            back_trimmed(cs@.subrange(from as int, to as int)) == back_trimmed(f),
        decreases to,
    {
        assert(cs@.subrange(from as int, to as int).drop_last() =~= cs@.subrange(
            from as int,
            to - 1,
        ));
        to = to - 1;
    }
    assert(back_trimmed(cs@.subrange(from as int, to as int)) == cs@.subrange(
        from as int,
        to as int,
    ));
    let mut out: Vec<char> = Vec::new();
    let mut i: usize = from;
    while i < to
        invariant
            from <= i <= to <= cs@.len(),
            out@ == cs@.subrange(from as int, i as int),
        decreases to - i,
    {
        out.push(cs[i]);
        i = i + 1;
        assert(out@ =~= cs@.subrange(from as int, i as int));
    }
    out
}

// ------------------------------------------------------------------------ names

pub open spec fn label_char(c: char) -> bool {
    'a' <= c <= 'z' || 'A' <= c <= 'Z' || '0' <= c <= '9' || c == '-'
}

/// One label of a hostname: letters, digits and hyphens, with a hyphen at
/// neither end.
pub open spec fn label_ok(l: Seq<char>) -> bool {
    &&& 1 <= l.len() <= MAX_LABEL
    &&& forall|i: int| 0 <= i < l.len() ==> label_char(#[trigger] l[i])
    &&& l[0] != '-' && l.last() != '-'
}

/// A hostname. Its last label is not a number, or it would be an address.
pub open spec fn is_hostname(s: Seq<char>) -> bool {
    let ls = pieces(s, '.');
    &&& s.len() <= MAX_HOST
    &&& forall|i: int| 0 <= i < ls.len() ==> label_ok(#[trigger] ls[i])
    &&& !all_digits(ls.last())
}

/// One number of a dotted address, without leading zeros.
pub open spec fn octet_ok(l: Seq<char>) -> bool {
    &&& l.len() >= 1 && all_digits(l) && digits_value(l) <= 255
    &&& l.len() > 1 ==> l[0] != '0'
}

/// An IPv4 literal: four numbers with dots between them.
pub open spec fn is_ipv4(s: Seq<char>) -> bool {
    let ls = pieces(s, '.');
    ls.len() == 4 && forall|i: int| 0 <= i < ls.len() ==> octet_ok(#[trigger] ls[i])
}

/// What may stand on a line of its own.
pub open spec fn is_peer(s: Seq<char>) -> bool {
    is_ipv4(s) || is_hostname(s)
}

fn label(cs: &Vec<char>) -> (r: bool)
    ensures
        r == label_ok(cs@),
{
    let n: usize = cs.len();
    if n == 0 || n > MAX_LABEL {
        return false;
    }
    let mut i: usize = 0;
    while i < n
        invariant
            i <= n,
            n == cs@.len(),
            forall|k: int| 0 <= k < i ==> label_char(#[trigger] cs@[k]),
        decreases n - i,
    {
        let c = cs[i];
        if !(('a' <= c && c <= 'z') || ('A' <= c && c <= 'Z') || ('0' <= c && c <= '9') || c
            == '-') {
            assert(!label_char(cs@[i as int]));
            return false;
        }
        i = i + 1;
    }
    cs[0] != '-' && cs[n - 1] != '-'
}

fn digits(cs: &Vec<char>) -> (r: bool)
    ensures
        r == all_digits(cs@),
{
    let mut i: usize = 0;
    while i < cs.len()
        invariant
            i <= cs@.len(),
            forall|k: int| 0 <= k < i ==> '0' <= #[trigger] cs@[k] <= '9',
        decreases cs@.len() - i,
    {
        let c = cs[i];
        if c < '0' || c > '9' {
            assert(!('0' <= cs@[i as int] <= '9'));
            return false;
        }
        i = i + 1;
    }
    true
}

fn octet(cs: &Vec<char>) -> (r: bool)
    ensures
        r == octet_ok(cs@),
{
    let n: usize = cs.len();
    if n == 0 || !digits(cs) || (n > 1 && cs[0] == '0') {
        return false;
    }
    assert(cs@.subrange(0, n as int) =~= cs@);
    assert(cs@[0] != '+');
    chars::parse_number(cs, 0, n, 255).is_some()
}

fn hostname(cs: &Vec<char>) -> (r: bool)
    ensures
        r == is_hostname(cs@),
{
    if cs.len() > MAX_HOST {
        return false;
    }
    let ls = split(cs, '.');
    let ghost v = ls.deep_view();
    let n: usize = ls.len();
    let mut i: usize = 0;
    while i < n
        invariant
            i <= n,
            n == ls@.len(),
            v == ls.deep_view(),
            v == pieces(cs@, '.'),
            forall|k: int| 0 <= k < i ==> label_ok(#[trigger] v[k]),
        decreases n - i,
    {
        assert(v[i as int] == ls@[i as int]@);
        if !label(&chars::chars(ls[i].as_str())) {
            assert(!label_ok(v[i as int]));
            return false;
        }
        i = i + 1;
    }
    assert(v.last() == ls@[n - 1]@);
    !digits(&chars::chars(ls[n - 1].as_str()))
}

fn ipv4(cs: &Vec<char>) -> (r: bool)
    ensures
        r == is_ipv4(cs@),
{
    let ls = split(cs, '.');
    let ghost v = ls.deep_view();
    if ls.len() != 4 {
        return false;
    }
    let mut i: usize = 0;
    while i < 4
        invariant
            i <= 4,
            ls@.len() == 4,
            v == ls.deep_view(),
            v == pieces(cs@, '.'),
            forall|k: int| 0 <= k < i ==> octet_ok(#[trigger] v[k]),
        decreases 4 - i,
    {
        assert(v[i as int] == ls@[i as int]@);
        if !octet(&chars::chars(ls[i].as_str())) {
            assert(!octet_ok(v[i as int]));
            return false;
        }
        i = i + 1;
    }
    true
}

// -------------------------------------------------------------------- the lines

/// A line that names something: neither blank nor a `#` comment.
pub open spec fn names_something(l: Seq<char>) -> bool {
    stripped(l).len() > 0 && stripped(l)[0] != '#'
}

/// What the lines name, in order.
pub open spec fn named_in(ls: Seq<Seq<char>>) -> Seq<Seq<char>>
    decreases ls.len(),
{
    if ls.len() == 0 {
        Seq::empty()
    } else if names_something(ls.last()) {
        named_in(ls.drop_last()).push(stripped(ls.last()))
    } else {
        named_in(ls.drop_last())
    }
}

/// The lines that name something that is no peer, counted from 1.
pub open spec fn bad_in(ls: Seq<Seq<char>>) -> Seq<usize>
    decreases ls.len(),
{
    if ls.len() == 0 {
        Seq::empty()
    } else if names_something(ls.last()) && !is_peer(stripped(ls.last())) {
        bad_in(ls.drop_last()).push(ls.len() as usize)
    } else {
        bad_in(ls.drop_last())
    }
}

/// The lines of a text.
pub open spec fn lines_of(text: Seq<char>) -> Seq<Seq<char>> {
    pieces(text, '\n')
}

/// The peers a text lists, one IPv4 literal or hostname to a line; blank lines
/// and `#` comments are skipped. Every bad line is reported, by its number
/// counted from 1, and then nothing else is.
pub fn peer_lines(text: &str) -> (r: Result<Vec<String>, Vec<usize>>)
    ensures
        match r {
            Ok(ps) => bad_in(lines_of(text@)).len() == 0 && ps.deep_view() == named_in(
                lines_of(text@),
            ),
            Err(bad) => bad@.len() > 0 && bad@ == bad_in(lines_of(text@)),
        },
{
    let cs = chars::chars(text);
    let lines = split(&cs, '\n');
    let ghost ls = lines.deep_view();
    let mut named: Vec<String> = Vec::new();
    let mut bad: Vec<usize> = Vec::new();
    assert(ls.take(0) =~= Seq::empty());
    assert(named.deep_view() =~= Seq::empty());
    let mut i: usize = 0;
    while i < lines.len()
        invariant
            i <= lines@.len(),
            ls == lines.deep_view(),
            named.deep_view() == named_in(ls.take(i as int)),
            bad@ == bad_in(ls.take(i as int)),
        decreases lines@.len() - i,
    {
        assert(ls.take(i + 1).drop_last() =~= ls.take(i as int));
        assert(ls.take(i + 1).last() == lines@[i as int]@);
        let line = strip(&chars::chars(lines[i].as_str()));
        i = i + 1;
        if line.len() > 0 && line[0] != '#' {
            if !ipv4(&line) && !hostname(&line) {
                bad.push(i);
            }
            assert(line@.subrange(0, line@.len() as int) =~= line@);
            let name = chars::text_of(&line, 0, line.len());
            let ghost nv = name@;
            let ghost before = named.deep_view();
            named.push(name);
            assert(named.deep_view() =~= before.push(nv));
        }
    }
    assert(ls.take(i as int) =~= ls);
    if bad.len() > 0 {
        Err(bad)
    } else {
        Ok(named)
    }
}

// ------------------------------------------------------------------------- laws

/// Pieces with a `c` between each and the next.
pub open spec fn joined(ps: Seq<Seq<char>>, c: char) -> Seq<char>
    decreases ps.len(),
{
    if ps.len() == 0 {
        Seq::empty()
    } else if ps.len() == 1 {
        ps[0]
    } else {
        joined(ps.drop_last(), c).push(c) + ps.last()
    }
}

/// Law: a text is its pieces with a `c` between each and the next, and no piece
/// holds a `c`.
pub proof fn law_pieces_make_up_the_text(s: Seq<char>, c: char)
    ensures
        pieces(s, c).len() > 0,
        joined(pieces(s, c), c) == s,
        forall|i: int| 0 <= i < pieces(s, c).len() ==> !(#[trigger] pieces(s, c)[i]).contains(c),
    decreases s.len(),
{
    if s.len() == 0 {
        assert(s =~= Seq::empty());
    } else {
        let a = s.drop_last();
        let ps = pieces(a, c);
        let qs = pieces(s, c);
        law_pieces_make_up_the_text(a, c);
        assert(s =~= a.push(s.last()));
        if s.last() == c {
            assert(qs.drop_last() =~= ps);
            assert(joined(qs, c) =~= s);
        } else {
            let l = ps.last();
            assert(!ps[ps.len() - 1].contains(c));
            assert forall|k: int| 0 <= k < l.push(s.last()).len() implies #[trigger] l.push(
                s.last(),
            )[k] != c by {
                if k < l.len() {
                    assert(l[k] != c);
                }
            }
            assert(qs.drop_last() =~= ps.drop_last());
            assert(joined(qs, c) =~= s);
        }
    }
}

/// Law: stripping takes blanks, tabs and carriage returns off both ends, all of
/// them and nothing else.
pub proof fn law_stripping_takes_blanks_off_the_ends(s: Seq<char>)
    ensures
        exists|i: int, j: int| #[trigger] blank_around(s, i, j) && stripped(s) == s.subrange(i, j),
        stripped(s).len() > 0 ==> !" \t\r"@.contains(stripped(s)[0]) && !" \t\r"@.contains(
            stripped(s).last(),
        ),
{
    reveal_strlit(" \t\r");
    let f = front_trimmed(s);
    lemma_front_trimmed(s);
    lemma_back_trimmed(f);
    let i = s.len() - f.len();
    let j = i + stripped(s).len();
    assert forall|k: int| 0 <= k < i || j <= k < s.len() implies " \t\r"@.contains(
        #[trigger] s[k],
    ) by {
        let w = " \t\r"@;
        assert(w[0] == ' ' && w[1] == '\t' && w[2] == '\r');
        if k < i {
            assert(blank(s[k]));
        } else {
            assert(f[k - i] == s[k]);
        }
    }
    assert(stripped(s) =~= s.subrange(i, j));
    assert(blank_around(s, i, j));
}

/// What stands before `i` and from `j` on is blank.
pub open spec fn blank_around(s: Seq<char>, i: int, j: int) -> bool {
    &&& 0 <= i <= j <= s.len()
    &&& forall|k: int|
        0 <= k < i || j <= k < s.len() ==> " \t\r"@.contains(#[trigger] s[k])
}

proof fn lemma_front_trimmed(s: Seq<char>)
    ensures
        ({
            let f = front_trimmed(s);
            let i = s.len() - f.len();
            &&& 0 <= i && f == s.skip(i)
            &&& forall|k: int| 0 <= k < i ==> blank(#[trigger] s[k])
            &&& f.len() > 0 ==> !blank(f[0])
        }),
    decreases s.len(),
{
    if s.len() > 0 && blank(s[0]) {
        let a = s.skip(1);
        lemma_front_trimmed(a);
        let i = s.len() - front_trimmed(s).len();
        assert(a.skip(i - 1) =~= s.skip(i));
        assert forall|k: int| 0 <= k < i implies blank(#[trigger] s[k]) by {
            if k > 0 {
                assert(a[k - 1] == s[k]);
            }
        }
    } else {
        assert(s.skip(0) =~= s);
    }
}

proof fn lemma_back_trimmed(s: Seq<char>)
    ensures
        ({
            let b = back_trimmed(s);
            &&& b.len() <= s.len() && b == s.take(b.len() as int)
            &&& forall|k: int| b.len() <= k < s.len() ==> blank(#[trigger] s[k])
            &&& b.len() > 0 ==> !blank(b.last())
            &&& b.len() > 0 ==> b[0] == s[0]
        }),
    decreases s.len(),
{
    if s.len() > 0 && blank(s.last()) {
        let a = s.drop_last();
        lemma_back_trimmed(a);
        let n = back_trimmed(s).len() as int;
        assert(a.take(n) =~= s.take(n));
        assert forall|k: int| n <= k < s.len() implies blank(#[trigger] s[k]) by {
            if k < s.len() - 1 {
                assert(a[k] == s[k]);
            }
        }
    } else {
        assert(s.take(s.len() as int) =~= s);
    }
}

/// Law: a line counts unless nothing is left of it but its blanks or a `#`
/// begins it; each that counts is named as it stands without the blanks, and
/// one that names neither an address nor a host is reported under its number,
/// counted from 1, and no other line is.
pub proof fn law_every_line_counts_or_is_reported(ls: Seq<Seq<char>>, i: int)
    requires
        ls.len() <= usize::MAX,
        0 <= i < ls.len(),
    ensures
        ({
            let t = stripped(ls[i]);
            let counts = t.len() > 0 && t[0] != '#';
            &&& counts ==> named_in(ls).contains(t)
            &&& bad_in(ls).contains((i + 1) as usize) == (counts && !is_ipv4(t) && !is_hostname(t))
        }),
        named_in(ls).len() <= ls.len(),
        forall|k: int|
            0 <= k < bad_in(ls).len() ==> 1 <= (#[trigger] bad_in(ls)[k]) <= ls.len(),
    decreases ls.len(),
{
    let a = ls.drop_last();
    let ns = named_in(a);
    let bs = bad_in(a);
    let n = named_in(ls);
    let b = bad_in(ls);
    if a.len() > 0 {
        law_every_line_counts_or_is_reported(
            a,
            if i < a.len() {
                i
            } else {
                0
            },
        );
    }
    assert forall|k: int| 0 <= k < bs.len() implies bs[k] == #[trigger] b[k] by {}
    assert forall|k: int| 0 <= k < ns.len() implies ns[k] == #[trigger] n[k] by {}
    let t = stripped(ls[i]);
    let x = (i + 1) as usize;
    if i < a.len() {
        assert(a[i] == ls[i]);
        if ns.contains(t) {
            let k = choose|k: int| 0 <= k < ns.len() && ns[k] == t;
            assert(n[k] == t);
        }
        if bs.contains(x) {
            let k = choose|k: int| 0 <= k < bs.len() && bs[k] == x;
            assert(b[k] == x);
        }
        if b.contains(x) {
            let k = choose|k: int| 0 <= k < b.len() && b[k] == x;
            assert(k < bs.len());
            assert(bs[k] == x);
        }
    } else {
        if names_something(ls.last()) {
            assert(n[ns.len() as int] == t);
            if !is_peer(t) {
                assert(b[bs.len() as int] == x);
            }
        }
        if b.contains(x) {
            let k = choose|k: int| 0 <= k < b.len() && b[k] == x;
            if k < bs.len() {
                assert(bs[k] == x);
            }
        }
    }
}

/// Law: a host's name is at most 253 characters, in labels of 1 to 63 letters,
/// digits and hyphens with dots between them, and no hyphen begins or ends a
/// label; an address is four numbers of at most 255 with dots between them.
pub proof fn law_what_names_a_peer(s: Seq<char>, i: int)
    requires
        is_peer(s),
        0 <= i < pieces(s, '.').len(),
    ensures
        joined(pieces(s, '.'), '.') == s,
        ({
            let l = pieces(s, '.')[i];
            &&& 1 <= l.len()
            &&& is_hostname(s) ==> s.len() <= 253 && l.len() <= 63 && l[0] != '-' && l.last() != '-'
            &&& !is_hostname(s) ==> pieces(s, '.').len() == 4 && digits_value(l) <= 255
            &&& forall|k: int|
                0 <= k < l.len() ==> ('a' <= #[trigger] l[k] <= 'z' || 'A' <= l[k] <= 'Z' || '0'
                    <= l[k] <= '9' || l[k] == '-')
        }),
{
    law_pieces_make_up_the_text(s, '.');
    let l = pieces(s, '.')[i];
    if is_hostname(s) {
        assert(label_ok(l));
    } else {
        assert(octet_ok(l));
    }
}

} // verus!
