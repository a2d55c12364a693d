//! What the commands say: results for stdout, and what was noticed on the way
//! for stderr.

use vstd::prelude::*;
use vstd::string::*;

use crate::fmt;
use crate::node::BadAddr;
use crate::runtime::{ClaimError, Node};
use crate::wire::nbp::NbpTupleView;
use crate::wire::{Addr, NbpTuple};

verus! {

/// A string as `{:?}` prints it: in quotes, with what is not printable escaped.
pub uninterp spec fn quoted(s: Seq<char>) -> Seq<char>;

/// `Debug` of `str`, by way of `format!`: the result depends on the string
/// alone. Which characters are escaped, and how, is left unsaid.
#[verifier::external_body]
fn quote(s: &str) -> (r: String)
    ensures
        r@ == quoted(s@),
{
    format!("{s:?}")
}

// ------------------------------------------------------------------- addresses

/// What is said of text that is no address, given that text in quotes.
pub fn bad_address(quoted: &str) -> (r: String)
    ensures
        r@ == "bad address "@ + quoted@,
{
    let mut s = fmt::text("bad address ");
    fmt::push_text(&mut s, quoted);
    s
}

impl BadAddr {
    pub fn to_string(&self) -> (r: String)
        ensures
            r@ == "bad address "@ + quoted(self.text@),
    {
        let q = quote(self.text.as_str());
        bad_address(q.as_str())
    }
}

impl ClaimError {
    pub open spec fn spec_text(self) -> Seq<char> {
        match self {
            ClaimError::Reserved(n) => "node "@ + fmt::dec(n as nat)
                + " is reserved and cannot be claimed"@,
            ClaimError::Taken(a) => a.text() + " is taken"@,
            ClaimError::NoneFree => "could not claim an address"@,
            ClaimError::NoneFreeInRange => "could not claim an address in range"@,
            ClaimError::Unsent => "the probe could not be sent"@,
        }
    }

    pub fn to_string(&self) -> (r: String)
        ensures
            r@ == self.spec_text(),
    {
        match self {
            ClaimError::Reserved(n) => {
                let mut s = fmt::text("node ");
                fmt::push_dec(&mut s, *n as u64);
                fmt::push_text(&mut s, " is reserved and cannot be claimed");
                s
            },
            ClaimError::Taken(a) => {
                let mut s = a.to_string();
                fmt::push_text(&mut s, " is taken");
                s
            },
            ClaimError::NoneFree => fmt::text("could not claim an address"),
            ClaimError::NoneFreeInRange => fmt::text("could not claim an address in range"),
            ClaimError::Unsent => fmt::text("the probe could not be sent"),
        }
    }
}

// --------------------------------------------------------------------- a claim

/// That an address the user asked for is not on this cable, which is their
/// business: we say what we did rather than second-guessing it.
pub open spec fn outside_text(a: Addr, range: (u16, u16)) -> Seq<char> {
    a.text() + " is outside this cable's range "@ + fmt::dec(range.0 as nat) + "-"@ + fmt::dec(
        range.1 as nat,
    ) + "; keeping it as requested"@
}

/// What a finished claim says, given our zone in quotes.
pub open spec fn claim_text(
    a: Addr,
    zone: Seq<char>,
    router: Option<Addr>,
    outside: Option<(u16, u16)>,
) -> Seq<Seq<char>> {
    match router {
        None => seq!["claimed "@ + a.text() + ", no router on this network"@],
        Some(r) => {
            let line = "claimed "@ + a.text() + ", zone "@ + zone + ", router "@ + r.text();
            match outside {
                Some(range) => seq![outside_text(a, range), line],
                None => seq![line],
            }
        },
    }
}

fn outside_line(a: Addr, range: (u16, u16)) -> (r: String)
    ensures
        r@ == outside_text(a, range),
{
    let mut s = a.to_string();
    fmt::push_text(&mut s, " is outside this cable's range ");
    fmt::push_dec(&mut s, range.0 as u64);
    fmt::push_text(&mut s, "-");
    fmt::push_dec(&mut s, range.1 as u64);
    fmt::push_text(&mut s, "; keeping it as requested");
    s
}

/// What a finished claim says, given our zone in quotes.
pub fn claim_lines(a: Addr, zone: &str, router: Option<Addr>, outside: Option<(u16, u16)>) -> (r:
    Vec<String>)
    ensures
        r.deep_view() == claim_text(a, zone@, router, outside),
{
    let mut out: Vec<String> = Vec::new();
    let mut s = fmt::text("claimed ");
    fmt::push_text(&mut s, a.to_string().as_str());
    match router {
        None => {
            fmt::push_text(&mut s, ", no router on this network");
            let ghost line = s@;
            out.push(s);
            assert(out.deep_view() =~= seq![line]);
        },
        Some(r) => {
            if let Some(range) = outside {
                out.push(outside_line(a, range));
            }
            let ghost before = out.deep_view();
            fmt::push_text(&mut s, ", zone ");
            fmt::push_text(&mut s, zone);
            fmt::push_text(&mut s, ", router ");
            fmt::push_text(&mut s, r.to_string().as_str());
            let ghost line = s@;
            out.push(s);
            assert(out.deep_view() =~= before.push(line));
        },
    }
    assert(out.deep_view() =~= claim_text(a, zone@, router, outside));
    out
}

impl Node {
    /// What is said once the claim has come to its end.
    pub fn claim_notes(&self, outside: Option<(u16, u16)>) -> (r: Vec<String>)
        ensures
            r.deep_view() == claim_text(
                self.addr,
                quoted(
                    match self.zone {
                        Some(z) => z@,
                        None => "*"@,
                    },
                ),
                self.router,
                outside,
            ),
    {
        let q = quote(self.zone());
        claim_lines(self.addr, q.as_str(), self.router, outside)
    }
}

// -------------------------------------------------------------------- commands

/// Lines for stdout, and lines for stderr.
pub struct Printed {
    pub out: Vec<String>,
    pub err: Vec<String>,
}

pub struct PrintedView {
    pub out: Seq<Seq<char>>,
    pub err: Seq<Seq<char>>,
}

impl DeepView for Printed {
    type V = PrintedView;

    open spec fn deep_view(&self) -> PrintedView {
        PrintedView { out: self.out.deep_view(), err: self.err.deep_view() }
    }
}

/// One line for each entity; that none answered is said, given the zone in
/// quotes.
pub open spec fn nodes_text(found: Seq<NbpTupleView>, zone: Seq<char>) -> PrintedView {
    PrintedView {
        out: Seq::new(found.len(), |i: int| found[i].text()),
        err: if found.len() == 0 {
            seq!["no entities answered in zone "@ + zone]
        } else {
            Seq::empty()
        },
    }
}

/// What `nodes` prints, given the zone in quotes.
pub fn nodes_lines(found: &Vec<NbpTuple>, zone: &str) -> (r: Printed)
    ensures
        r.deep_view() == nodes_text(found.deep_view(), zone@),
{
    let ghost v = found.deep_view();
    let mut out: Vec<String> = Vec::new();
    assert(out.deep_view() =~= Seq::empty());
    let mut i: usize = 0;
    while i < found.len()
        invariant
            i <= found@.len(),
            v == found.deep_view(),
            v.len() == found@.len(),
            out.deep_view() == Seq::new(i as nat, |k: int| v[k].text()),
        decreases found@.len() - i,
    {
        let ghost before = out.deep_view();
        let line = found[i].to_string();
        let ghost lv = line@;
        assert(v[i as int] == found@[i as int].deep_view());
        out.push(line);
        assert(out.deep_view() =~= before.push(lv));
        i = i + 1;
        assert(out.deep_view() =~= Seq::new(i as nat, |k: int| v[k].text()));
    }
    let mut err: Vec<String> = Vec::new();
    assert(err.deep_view() =~= Seq::empty());
    if found.len() == 0 {
        let mut s = fmt::text("no entities answered in zone ");
        fmt::push_text(&mut s, zone);
        let ghost sv = s@;
        err.push(s);
        assert(err.deep_view() =~= seq![sv]);
    }
    Printed { out, err }
}

/// What `nodes` prints.
pub fn nodes(found: &Vec<NbpTuple>, zone: &str) -> (r: Printed)
    ensures
        r.deep_view() == nodes_text(found.deep_view(), quoted(zone@)),
{
    let q = quote(zone);
    nodes_lines(found, q.as_str())
}

/// What `ping` is to be told of a name it looked up: the first that answered,
/// and that there were more; or that there was no answer.
pub fn ping_target(found: &Vec<NbpTuple>, object: &str, typ: &str, zone: &str) -> (r: Result<
    (Addr, Option<String>),
    String,
>)
    ensures
        match r {
            Ok((a, more)) => found@.len() > 0 && a == found@[0].addr && match more {
                Some(s) => found@.len() > 1 && s@ == fmt::dec(found@.len()) + " answered; pinging "@
                    + found@[0].deep_view().text(),
                None => found@.len() == 1,
            },
            Err(s) => found@.len() == 0 && s@ == "no answer for "@ + object@ + ":"@ + typ@ + "@"@
                + zone@,
        },
{
    if found.len() == 0 {
        let mut s = fmt::text("no answer for ");
        fmt::push_text(&mut s, object);
        fmt::push_text(&mut s, ":");
        fmt::push_text(&mut s, typ);
        fmt::push_text(&mut s, "@");
        fmt::push_text(&mut s, zone);
        return Err(s);
    }
    let more = if found.len() > 1 {
        let mut s = String::new();
        fmt::push_dec(&mut s, found.len() as u64);
        fmt::push_text(&mut s, " answered; pinging ");
        fmt::push_text(&mut s, found[0].to_string().as_str());
        assert(s@ =~= fmt::dec(found@.len()) + " answered; pinging "@
            + found@[0].deep_view().text());
        Some(s)
    } else {
        None
    };
    Ok((found[0].addr, more))
}

/// One line for each zone, our own marked. A router that answers but lists
/// nothing is a real answer, and saying so beats printing nothing; a network
/// without a router genuinely has no zones.
pub open spec fn zones_text(
    router: Option<Addr>,
    ours: Seq<char>,
    zones: Seq<Seq<char>>,
) -> PrintedView {
    match router {
        None => PrintedView {
            out: Seq::empty(),
            err: seq!["no router: this network has no zones"@],
        },
        Some(r) => PrintedView {
            out: Seq::new(zones.len(), |i: int| crate::cli::zone_text(zones[i], ours)),
            err: if zones.len() == 0 {
                seq!["router "@ + r.text() + " answered with an empty zone list"@]
            } else {
                Seq::empty()
            },
        },
    }
}

/// What `zones` prints.
pub fn zones(router: Option<Addr>, ours: &String, list: &Vec<String>) -> (r: Printed)
    ensures
        r.deep_view() == zones_text(router, ours@, list.deep_view()),
{
    let mut out: Vec<String> = Vec::new();
    let mut err: Vec<String> = Vec::new();
    assert(out.deep_view() =~= Seq::empty());
    assert(err.deep_view() =~= Seq::empty());
    let r = match router {
        Some(r) => r,
        None => {
            let s = fmt::text("no router: this network has no zones");
            let ghost sv = s@;
            err.push(s);
            assert(err.deep_view() =~= seq![sv]);
            return Printed { out, err };
        },
    };
    let ghost v = list.deep_view();
    let ghost want = Seq::new(v.len(), |i: int| crate::cli::zone_text(v[i], ours@));
    assert(out.deep_view() =~= want.take(0));
    let mut i: usize = 0;
    while i < list.len()
        invariant
            i <= list@.len(),
            v == list.deep_view(),
            v.len() == list@.len(),
            want == Seq::new(v.len(), |i: int| crate::cli::zone_text(v[i], ours@)),
            out.deep_view() == want.take(i as int),
        decreases list@.len() - i,
    {
        let ghost before = out.deep_view();
        assert(v[i as int] == list@[i as int]@);
        let line = crate::cli::zone_line(&list[i], ours);
        let ghost lv = line@;
        out.push(line);
        assert(out.deep_view() =~= before.push(lv));
        i = i + 1;
        assert(out.deep_view() =~= want.take(i as int));
    }
    assert(want.take(i as int) =~= want);
    if list.len() == 0 {
        let mut s = fmt::text("router ");
        fmt::push_text(&mut s, r.to_string().as_str());
        fmt::push_text(&mut s, " answered with an empty zone list");
        let ghost sv = s@;
        err.push(s);
        assert(err.deep_view() =~= seq![sv]);
    }
    Printed { out, err }
}

// ------------------------------------------------------------------------- laws

/// Law: every entity found gets a line of its own, in order, and what was not
/// found is said only where nothing was.
pub proof fn law_every_entity_is_printed(found: Seq<NbpTupleView>, zone: Seq<char>)
    ensures
        nodes_text(found, zone).out.len() == found.len(),
        forall|i: int|
            0 <= i < found.len() ==> #[trigger] nodes_text(found, zone).out[i] == found[i].text(),
        nodes_text(found, zone).err.len() == (if found.len() == 0 {
            1nat
        } else {
            0
        }),
{
}

/// Law: every zone a router lists gets a line of its own, in order, our own with
/// a star behind it and no other; without a router there is none. Where there is
/// no line to print, that is said.
pub proof fn law_every_zone_is_printed(
    router: Option<Addr>,
    ours: Seq<char>,
    zones: Seq<Seq<char>>,
    i: int,
)
    requires
        0 <= i < zones.len(),
    ensures
        ({
            let p = zones_text(router, ours, zones);
            let none = zones_text(router, ours, Seq::empty());
            &&& router is Some ==> p.out.len() == zones.len() && p.err.len() == 0
            &&& router is Some && zones[i] == ours ==> p.out[i] == zones[i] + " *"@
            &&& router is Some && zones[i] != ours ==> p.out[i] == zones[i]
            &&& router is None ==> p.out.len() == 0 && p.err.len() == 1
            &&& none.out.len() == 0 && none.err.len() == 1
        }),
{
}

/// Law: a claim ends with the line that says which address is ours; before it
/// stands, where there is a router, that the address is off the cable, if it is.
pub proof fn law_a_claim_is_reported(
    a: Addr,
    zone: Seq<char>,
    router: Option<Addr>,
    outside: Option<(u16, u16)>,
)
    ensures
        ({
            let lines = claim_text(a, zone, router, outside);
            let said = "claimed "@ + a.text();
            &&& lines.len() == (if router is Some && outside is Some {
                2nat
            } else {
                1
            })
            &&& lines.last().take(said.len() as int) == said
        }),
{
    let lines = claim_text(a, zone, router, outside);
    let said = "claimed "@ + a.text();
    assert(lines.last().take(said.len() as int) =~= said);
}

} // verus!
