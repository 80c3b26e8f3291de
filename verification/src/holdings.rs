//! The units that one account holds, security by security.

use vstd::prelude::*;
use vstd::std_specs::hash::*;
use std::collections::HashMap;
use crate::ident::SecId;

verus! {

/// The units of `sec` in a record of holdings; a missing entry counts as none.
pub open spec fn units_in(record: Map<u128, usize>, sec: u128) -> nat {
    if record.contains_key(sec) {
        record[sec] as nat
    } else {
        0
    }
}

/// What one account holds. The view maps each security that has an entry to
/// the units held of it.
#[derive(Debug)]
pub struct Holdings {
    units: HashMap<u128, usize>,
}

impl View for Holdings {
    type V = Map<u128, usize>;

    closed spec fn view(&self) -> Map<u128, usize> {
        self.units@
    }
}

impl Holdings {
    /// Holdings with no entry.
    pub fn new() -> (holdings: Holdings)
        ensures
            holdings@ == Map::<u128, usize>::empty(),
    {
        Holdings { units: HashMap::new() }
    }

    /// The units held of `sec`.
    pub fn units(&self, sec: SecId) -> (held: usize)
        ensures
            held == units_in(self@, sec.0),
    {
        broadcast use group_hash_axioms;

        match self.units.get(&sec.0) {
            Some(held) => *held,
            None => 0,
        }
    }

    /// Sets the units held of `sec`.
    pub fn set(&mut self, sec: SecId, held: usize)
        ensures
            final(self)@ == old(self)@.insert(sec.0, held),
    {
        broadcast use group_hash_axioms;

        self.units.insert(sec.0, held);
    }

    /// Takes one unit of `sec` out of the holdings, if there is one.
    pub fn withdraw_one(&mut self, sec: SecId) -> (taken: bool)
        ensures
            taken == (units_in(old(self)@, sec.0) >= 1),
            taken ==> final(self)@ == old(self)@.insert(
                sec.0,
                (units_in(old(self)@, sec.0) - 1) as usize,
            ),
            !taken ==> final(self)@ == old(self)@,
    {
        let held = self.units(sec);
        if held < 1 {
            false
        } else {
            self.set(sec, held - 1);
            true
        }
    }

    /// Adds one unit of `sec` to the holdings.
    pub fn deposit_one(&mut self, sec: SecId)
        requires
            units_in(old(self)@, sec.0) < usize::MAX,
        ensures
            final(self)@ == old(self)@.insert(sec.0, (units_in(old(self)@, sec.0) + 1) as usize),
    {
        let held = self.units(sec);
        self.set(sec, held + 1);
    }
}

} // verus!
