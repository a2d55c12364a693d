//! The address mapping table: which hardware address each node was heard
//! from.

use std::collections::HashMap;

use vstd::prelude::*;

use crate::addr::MacAddr;
use crate::wire::Addr;

verus! {

/// An address as one number.
pub open spec fn id_of(a: Addr) -> u32 {
    (a.net * 256 + a.node) as u32
}

fn id(a: Addr) -> (r: u32)
    ensures
        r == id_of(a),
{
    a.net as u32 * 256 + a.node as u32
}

#[derive(Debug, PartialEq, Eq)]
pub struct Amt {
    by_id: HashMap<u32, MacAddr>,
}

impl View for Amt {
    type V = Map<Addr, MacAddr>;

    closed spec fn view(&self) -> Map<Addr, MacAddr> {
        Map::new(|a: Addr| self.by_id@.contains_key(id_of(a)), |a: Addr| self.by_id@[id_of(a)])
    }
}

impl Amt {
    pub fn new() -> (r: Amt)
        ensures
            r@ == Map::<Addr, MacAddr>::empty(),
    {
        let r = Amt { by_id: HashMap::new() };
        assert(r@ =~= Map::empty());
        r
    }

    /// Records where a node was heard from, in place of what was known.
    pub fn insert(&mut self, a: Addr, mac: MacAddr)
        ensures
            final(self)@ == old(self)@.insert(a, mac),
    {
        self.by_id.insert(id(a), mac);
        assert forall|b: Addr| id_of(b) == id_of(a) implies b == a by {}
        assert(self@ =~= old(self)@.insert(a, mac));
    }

    pub fn get(&self, a: &Addr) -> (r: Option<MacAddr>)
        ensures
            r == (if self@.contains_key(*a) {
                Some(self@[*a])
            } else {
                None
            }),
    {
        match self.by_id.get(&id(*a)) {
            Some(m) => Some(*m),
            None => None,
        }
    }
}

} // verus!
