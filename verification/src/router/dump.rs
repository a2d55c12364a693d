//! An aligned dump of the routing and zone tables.

use vstd::prelude::*;
use vstd::string::*;

use crate::fmt;
use crate::router::table::{Route, Tables, TablesView};
use crate::router::Target;
use crate::wire::zip;

verus! {

/// How many columns the dump has.
pub const COLUMNS: usize = 6;

pub open spec fn header() -> Seq<Seq<char>> {
    seq!["network"@, "dist"@, "via"@, "next"@, "state"@, "zones"@]
}

/// A range, with a star before it on the route its traffic takes.
pub open spec fn network_cell(v: TablesView, r: Route) -> Seq<char> {
    (if v.incumbent(r) && r.state.carries() {
        "*"@
    } else {
        " "@
    }) + fmt::dec(r.range.0 as nat) + "-"@ + fmt::dec(r.range.1 as nat) + (if r.extended {
        ""@
    } else {
        " (n)"@
    })
}

pub open spec fn via_cell(t: Target) -> Seq<char> {
    match t {
        Target::Port(p) => "port "@ + fmt::dec(p as nat),
        Target::Peer(ip) => ip.text(),
    }
}

pub open spec fn next_cell(r: Route) -> Seq<char> {
    if r.next.net == 0 && r.next.node == 0 {
        "-"@
    } else {
        r.next.text()
    }
}

/// The zones of a range, or how many are still awaited.
pub open spec fn zones_cell(v: TablesView, start: u16) -> Seq<char> {
    if !v.zones.contains_key(start) {
        "?"@
    } else if v.zones[start].1.names.len() > 0 {
        zip::names_text(v.zones[start].1.names)
    } else {
        match v.zones[start].1.expected {
            Some(e) => "? of "@ + fmt::dec(e as nat),
            None => "?"@,
        }
    }
}

pub open spec fn cells(v: TablesView, r: Route) -> Seq<Seq<char>> {
    seq![
        network_cell(v, r),
        fmt::dec(r.distance as nat),
        via_cell(r.target),
        next_cell(r),
        r.state.text(),
        zones_cell(v, r.range.0),
    ]
}

/// The header, then a row for each route.
pub open spec fn rows(v: TablesView) -> Seq<Seq<Seq<char>>> {
    seq![header()] + Seq::new(v.routes.len(), |i: int| cells(v, v.routes[i]))
}

/// The widest cell of a column.
pub open spec fn width(rows: Seq<Seq<Seq<char>>>, c: int) -> nat
    decreases rows.len(),
{
    if rows.len() == 0 {
        0
    } else {
        let w = width(rows.drop_last(), c);
        if rows.last()[c].len() > w {
            rows.last()[c].len()
        } else {
            w
        }
    }
}

/// The first `c` cells of a row, each filled up to its column's width, with
/// two spaces after it.
pub open spec fn padded_cells(all: Seq<Seq<Seq<char>>>, row: Seq<Seq<char>>, c: nat) -> Seq<char>
    decreases c,
{
    if c == 0 {
        Seq::empty()
    } else {
        padded_cells(all, row, (c - 1) as nat) + fmt::pad_right(row[c - 1], width(all, c - 1))
            + "  "@
    }
}

/// One line: every column aligned but the last, which is left as it is.
pub open spec fn line(all: Seq<Seq<Seq<char>>>, row: Seq<Seq<char>>) -> Seq<char> {
    padded_cells(all, row, (COLUMNS - 1) as nat) + row[COLUMNS - 1] + "\n"@
}

/// The first `n` lines.
pub open spec fn lines(all: Seq<Seq<Seq<char>>>, n: nat) -> Seq<char>
    decreases n,
{
    if n == 0 {
        Seq::empty()
    } else {
        lines(all, (n - 1) as nat) + line(all, all[n - 1])
    }
}

fn row_of(tables: &Tables, r: &Route) -> (row: Vec<String>)
    ensures
        row.deep_view() == cells(tables.deep_view(), *r),
{
    let ghost v = tables.deep_view();
    let mut network = fmt::text(
        if tables.incumbent(r) && r.state.usable() {
            "*"
        } else {
            " "
        },
    );
    fmt::push_dec(&mut network, r.range.0 as u64);
    fmt::push_text(&mut network, "-");
    fmt::push_dec(&mut network, r.range.1 as u64);
    fmt::push_text(
        &mut network,
        if r.extended {
            ""
        } else {
            " (n)"
        },
    );
    let via = match r.target {
        Target::Port(p) => {
            let mut s = fmt::text("port ");
            fmt::push_dec(&mut s, p as u64);
            s
        },
        Target::Peer(ip) => ip.to_string(),
    };
    let next = if r.next.net == 0 && r.next.node == 0 {
        fmt::text("-")
    } else {
        r.next.to_string()
    };
    let zones = match tables.zones(r.range.0) {
        None => fmt::text("?"),
        Some(z) => if z.names.len() > 0 {
            zip::join_names(&z.names)
        } else {
            match z.expected {
                Some(e) => {
                    let mut s = fmt::text("? of ");
                    fmt::push_dec(&mut s, e as u64);
                    s
                },
                None => fmt::text("?"),
            }
        },
    };
    let row: Vec<String> = vec![
        network,
        fmt::number(r.distance as u64),
        via,
        next,
        fmt::text(r.state.name()),
        zones,
    ];
    assert(row.deep_view() =~= cells(v, *r));
    row
}

/// The widest cell of a column.
fn column_width(all: &Vec<Vec<String>>, c: usize) -> (w: usize)
    requires
        forall|i: int| 0 <= i < all@.len() ==> (#[trigger] all@[i])@.len() == COLUMNS,
        c < COLUMNS,
    ensures
        w == width(all.deep_view(), c as int),
{
    let ghost av = all.deep_view();
    let mut w: usize = 0;
    assert(av.take(0) =~= Seq::empty());
    let mut i: usize = 0;
    while i < all.len()
        invariant
            i <= all@.len(),
            c < COLUMNS,
            av == all.deep_view(),
            forall|j: int| 0 <= j < all@.len() ==> (#[trigger] all@[j])@.len() == COLUMNS,
            w == width(av.take(i as int), c as int),
        decreases all@.len() - i,
    {
        assert(av.take(i + 1).drop_last() =~= av.take(i as int));
        assert(av.take(i + 1).last() == all@[i as int].deep_view());
        let n: usize = all[i][c].as_str().unicode_len();
        if n > w {
            w = n;
        }
        i = i + 1;
    }
    assert(av.take(i as int) =~= av);
    w
}

impl Tables {
    /// An aligned dump of both tables, for an operator to read.
    pub fn dump(&self) -> (r: String)
        ensures
            r@ == lines(rows(self.deep_view()), rows(self.deep_view()).len()),
    {
        let ghost v = self.deep_view();
        let ghost goal = rows(v);
        let head: Vec<String> = vec![
            fmt::text("network"),
            fmt::text("dist"),
            fmt::text("via"),
            fmt::text("next"),
            fmt::text("state"),
            fmt::text("zones"),
        ];
        assert(head.deep_view() =~= header());
        let mut all: Vec<Vec<String>> = Vec::new();
        all.push(head);
        assert(all.deep_view() =~= goal.take(1));
        let routes = self.routes();
        let mut i: usize = 0;
        while i < routes.len()
            invariant
                i <= routes@.len(),
                v == self.deep_view(),
                routes@ == v.routes,
                goal == rows(v),
                all.deep_view() == goal.take(i + 1),
                all@.len() == i + 1,
            decreases routes@.len() - i,
        {
            let row = row_of(self, &routes[i]);
            let ghost rv = row.deep_view();
            let ghost before = all.deep_view();
            all.push(row);
            assert(all.deep_view() =~= before.push(rv));
            i = i + 1;
            assert(all.deep_view() =~= goal.take(i + 1));
        }
        assert(goal.take(i + 1) =~= goal);
        assert forall|j: int| 0 <= j < all@.len() implies (#[trigger] all@[j])@.len()
            == COLUMNS by {
            assert(all.deep_view()[j].len() == COLUMNS);
            assert(all@[j].deep_view() == all.deep_view()[j]);
        }
        write_lines(&all)
    }
}

/// Lays the rows out.
fn write_lines(all: &Vec<Vec<String>>) -> (r: String)
    requires
        forall|i: int| 0 <= i < all@.len() ==> (#[trigger] all@[i])@.len() == COLUMNS,
    ensures
        r@ == lines(all.deep_view(), all@.len()),
{
    let ghost av = all.deep_view();
    let widths: [usize; 5] = [
        column_width(all, 0),
        column_width(all, 1),
        column_width(all, 2),
        column_width(all, 3),
        column_width(all, 4),
    ];
    let mut out = String::new();
    let mut i: usize = 0;
    while i < all.len()
        invariant
            i <= all@.len(),
            av == all.deep_view(),
            forall|j: int| 0 <= j < all@.len() ==> (#[trigger] all@[j])@.len() == COLUMNS,
            forall|c: int| 0 <= c < 5 ==> #[trigger] widths@[c] == width(av, c),
            out@ == lines(av, i as nat),
        decreases all@.len() - i,
    {
        let row = &all[i];
        let ghost rv = row.deep_view();
        assert(rv == av[i as int]);
        let ghost head = out@;
        assert(out@ =~= head + padded_cells(av, rv, 0));
        let mut c: usize = 0;
        while c < 5
            invariant
                c <= 5,
                row@.len() == COLUMNS,
                rv == row.deep_view(),
                forall|k: int| 0 <= k < 5 ==> #[trigger] widths@[k] == width(av, k),
                out@ == head + padded_cells(av, rv, c as nat),
            decreases 5 - c,
        {
            assert(rv[c as int] == row@[c as int]@);
            fmt::push_padded(&mut out, row[c].as_str(), widths[c]);
            fmt::push_text(&mut out, "  ");
            c = c + 1;
            assert(out@ =~= head + padded_cells(av, rv, c as nat));
        }
        assert(rv[5] == row@[5]@);
        fmt::push_text(&mut out, row[5].as_str());
        fmt::push_text(&mut out, "\n");
        i = i + 1;
        assert(out@ =~= lines(av, i as nat));
    }
    out
}

} // verus!
