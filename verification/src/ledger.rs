//! The holdings ledger: what every account holds of every security.
//!
//! The ledger is modelled as a map from account to that account's record of
//! holdings. Most statements are about one *column* of it: the units of one
//! security, account by account.

use vstd::prelude::*;
use dashmap::DashMap;
use crate::holdings::{units_in, Holdings};
use crate::ident::{lemma_next_id_is_vacant, AccId, SecId};
use crate::store::{
    has_record, new_records, put_record, record_ids, records_in, take_record, units_at,
};

verus! {

/// The units of `sec` that `acc` holds; an account without a record holds none.
pub open spec fn position(ledger: Map<u128, Map<u128, usize>>, acc: u128, sec: u128) -> nat {
    if ledger.contains_key(acc) {
        units_in(ledger[acc], sec)
    } else {
        0
    }
}

/// The units of `sec` held by each account of the ledger.
pub open spec fn column(ledger: Map<u128, Map<u128, usize>>, sec: u128) -> Map<u128, nat> {
    Map::new(|acc: u128| ledger.contains_key(acc), |acc: u128| units_in(ledger[acc], sec))
}

/// The sum of a column.
pub open spec fn sum(col: Map<u128, nat>) -> nat
    decreases col.dom().len(),
    when col.dom().finite()
    via sum_shrinks
{
    if col.dom().len() == 0 {
        0
    } else {
        let acc = col.dom().choose();
        col[acc] + sum(col.remove(acc))
    }
}

#[via_fn]
proof fn sum_shrinks(col: Map<u128, nat>) {
    if col.dom().len() != 0 {
        let acc = col.dom().choose();
        assert(col.dom().contains(acc));
        assert(col.remove(acc).dom() == col.dom().remove(acc));
    }
}

/// The units of `sec` in existence: the sum over all accounts.
pub open spec fn total_units(ledger: Map<u128, Map<u128, usize>>, sec: u128) -> nat {
    sum(column(ledger, sec))
}

/// The units in `col` under `acc`; an account outside the column has none.
pub open spec fn held(col: Map<u128, nat>, acc: u128) -> nat {
    if col.contains_key(acc) {
        col[acc]
    } else {
        0
    }
}

/// The column after one unit has gone from `seller` to `buyer`.
pub open spec fn transfer(col: Map<u128, nat>, seller: u128, buyer: u128) -> Map<u128, nat> {
    let debited = col.insert(seller, (held(col, seller) - 1) as nat);
    debited.insert(buyer, held(debited, buyer) + 1)
}

/// Any one account can be split off a sum.
pub proof fn lemma_sum_remove(col: Map<u128, nat>, acc: u128)
    requires
        col.dom().finite(),
        col.contains_key(acc),
    ensures
        sum(col) == col[acc] + sum(col.remove(acc)),
    decreases col.dom().len(),
{
    let first = col.dom().choose();
    assert(col.dom().len() != 0);
    assert(col.remove(first).dom() == col.dom().remove(first));
    if first != acc {
        assert(col.remove(acc).dom() == col.dom().remove(acc));
        lemma_sum_remove(col.remove(first), acc);
        assert(col.remove(acc).contains_key(first));
        lemma_sum_remove(col.remove(acc), first);
        assert(col.remove(first).remove(acc) == col.remove(acc).remove(first));
    }
}

/// Writing one entry changes the sum by the difference of that entry.
pub proof fn lemma_sum_insert(col: Map<u128, nat>, acc: u128, units: nat)
    requires
        col.dom().finite(),
    ensures
        sum(col.insert(acc, units)) + held(col, acc) == sum(col) + units,
{
    let written = col.insert(acc, units);
    lemma_sum_remove(written, acc);
    assert(written.remove(acc) == col.remove(acc));
    if col.contains_key(acc) {
        lemma_sum_remove(col, acc);
    } else {
        assert(col.remove(acc) == col);
    }
}

/// No account holds more than the sum.
pub proof fn lemma_held_within_sum(col: Map<u128, nat>, acc: u128)
    requires
        col.dom().finite(),
    ensures
        held(col, acc) <= sum(col),
{
    if col.contains_key(acc) {
        lemma_sum_remove(col, acc);
    }
}

/// A transfer moves a unit and makes none.
pub proof fn lemma_transfer_keeps_sum(col: Map<u128, nat>, seller: u128, buyer: u128)
    requires
        col.dom().finite(),
        held(col, seller) >= 1,
    ensures
        sum(transfer(col, seller, buyer)) == sum(col),
        transfer(col, seller, buyer).dom() == col.dom().insert(seller).insert(buyer),
{
    let units: nat = (held(col, seller) - 1) as nat;
    let debited = col.insert(seller, units);
    lemma_sum_insert(col, seller, units);
    lemma_sum_insert(debited, buyer, held(debited, buyer) + 1);
}

/// Writing one account's record writes one entry of every column.
pub proof fn lemma_column_insert(
    ledger: Map<u128, Map<u128, usize>>,
    acc: u128,
    record: Map<u128, usize>,
    sec: u128,
)
    ensures
        column(ledger.insert(acc, record), sec) == column(ledger, sec).insert(
            acc,
            units_in(record, sec),
        ),
{
    assert(column(ledger.insert(acc, record), sec) =~= column(ledger, sec).insert(
        acc,
        units_in(record, sec),
    ));
}

/// A column without units sums to nothing.
pub proof fn lemma_sum_of_nothing(col: Map<u128, nat>)
    requires
        col.dom().finite(),
        forall|acc: u128| col.contains_key(acc) ==> col[acc] == 0,
    ensures
        sum(col) == 0,
    decreases col.dom().len(),
{
    if col.dom().len() != 0 {
        let acc = col.dom().choose();
        assert(col.remove(acc).dom() == col.dom().remove(acc));
        lemma_sum_of_nothing(col.remove(acc));
    }
}

/// A new account adds what its record holds to the units in existence.
pub proof fn lemma_new_record(
    ledger: Map<u128, Map<u128, usize>>,
    acc: u128,
    record: Map<u128, usize>,
    sec: u128,
)
    requires
        ledger.dom().finite(),
        !ledger.contains_key(acc),
    ensures
        total_units(ledger.insert(acc, record), sec) == total_units(ledger, sec) + units_in(
            record,
            sec,
        ),
{
    lemma_column_insert(ledger, acc, record, sec);
    assert(column(ledger, sec).dom() =~= ledger.dom());
    lemma_sum_insert(column(ledger, sec), acc, units_in(record, sec));
}

/// The ledger after one unit of `sec` has gone from `seller` to `buyer`.
pub open spec fn after_move(
    ledger: Map<u128, Map<u128, usize>>,
    sec: u128,
    seller: u128,
    buyer: u128,
) -> Map<u128, Map<u128, usize>> {
    let debited = ledger.insert(
        seller,
        ledger[seller].insert(sec, (units_in(ledger[seller], sec) - 1) as usize),
    );
    debited.insert(
        buyer,
        debited[buyer].insert(sec, (units_in(debited[buyer], sec) + 1) as usize),
    )
}

/// Moving a unit of `sec` is a transfer in the column of `sec` and leaves
/// every other column as it was.
pub proof fn lemma_move_is_transfer(
    ledger: Map<u128, Map<u128, usize>>,
    sec: u128,
    seller: u128,
    buyer: u128,
)
    requires
        ledger.dom().finite(),
        ledger.contains_key(seller),
        ledger.contains_key(buyer),
        position(ledger, seller, sec) >= 1,
        total_units(ledger, sec) <= usize::MAX,
    ensures
        after_move(ledger, sec, seller, buyer).dom() == ledger.dom(),
        column(after_move(ledger, sec, seller, buyer), sec) == transfer(
            column(ledger, sec),
            seller,
            buyer,
        ),
        forall|other: u128|
            other != sec ==> #[trigger] column(after_move(ledger, sec, seller, buyer), other)
                == column(ledger, other),
        total_units(after_move(ledger, sec, seller, buyer), sec) == total_units(ledger, sec),
{
    let col = column(ledger, sec);
    let moved = after_move(ledger, sec, seller, buyer);
    let debited_col = col.insert(seller, (held(col, seller) - 1) as nat);
    assert(col.dom() =~= ledger.dom());
    lemma_sum_insert(col, seller, (held(col, seller) - 1) as nat);
    lemma_held_within_sum(debited_col, buyer);
    lemma_transfer_keeps_sum(col, seller, buyer);
    assert(moved.dom() =~= ledger.dom());
    assert(column(moved, sec) =~= transfer(col, seller, buyer));
    assert forall|other: u128| other != sec implies #[trigger] column(moved, other) == column(
        ledger,
        other,
    ) by {
        assert(column(moved, other) =~= column(ledger, other));
    }
}

/// The holdings ledger of the market.
#[derive(Debug)]
pub struct Ledger {
    records: DashMap<u128, Holdings>,
}

impl View for Ledger {
    type V = Map<u128, Map<u128, usize>>;

    closed spec fn view(&self) -> Map<u128, Map<u128, usize>> {
        records_in(self.records)
    }
}

impl Ledger {
    /// Whether the ledger has finitely many accounts.
    pub open spec fn wf(&self) -> bool {
        self@.dom().finite()
    }

    /// A ledger without accounts.
    pub fn new() -> (ledger: Ledger)
        ensures
            ledger@ == Map::<u128, Map<u128, usize>>::empty(),
            ledger.wf(),
    {
        Ledger { records: new_records() }
    }

    /// Whether the ledger has the account.
    pub fn has_account(&self, acc: AccId) -> (found: bool)
        ensures
            found == self@.contains_key(acc.0),
    {
        has_record(&self.records, acc.0)
    }

    /// The units of `sec` that `acc` holds, if the ledger has the account.
    pub fn units(&self, acc: AccId, sec: SecId) -> (found: Option<usize>)
        ensures
            self@.contains_key(acc.0) ==> found == Some(position(self@, acc.0, sec.0) as usize),
            !self@.contains_key(acc.0) ==> found is None,
    {
        units_at(&self.records, acc.0, sec)
    }

    /// Writes the record of `acc`, in place of the one it had, if any.
    pub fn put(&mut self, acc: AccId, record: Holdings)
        ensures
            final(self)@ == old(self)@.insert(acc.0, record@),
            old(self).wf() ==> final(self).wf(),
    {
        put_record(&mut self.records, acc.0, record);
    }

    /// An identifier under which the ledger has no account: `hint` where it
    /// is free, the lowest free identifier where it is not.
    pub fn vacant(&self, hint: AccId) -> (free: AccId)
        ensures
            !self@.contains_key(free.0),
            !self@.contains_key(hint.0) ==> free == hint,
            self@.contains_key(hint.0) ==> forall|id: u128| id < free.0 ==> self@.contains_key(id),
    {
        if !has_record(&self.records, hint.0) {
            return hint;
        }
        let taken = record_ids(&self.records);
        proof {
            taken@.unique_seq_to_set();
        }
        let mut next: u128 = 0;
        while next < taken.len() as u128 && has_record(&self.records, next)
            invariant
                next <= taken@.len(),
                forall|id: u128| id < next ==> self@.contains_key(id),
            decreases taken@.len() - next,
        {
            next += 1;
        }
        proof {
            if next == taken@.len() {
                lemma_next_id_is_vacant(self@.dom(), next as nat);
            }
        }
        AccId(next)
    }

    /// Moves one unit of `sec` from `seller` to `buyer` if the seller holds one.
    pub fn move_unit(&mut self, sec: SecId, seller: AccId, buyer: AccId) -> (moved: bool)
        requires
            old(self).wf(),
            old(self)@.contains_key(seller.0),
            old(self)@.contains_key(buyer.0),
            total_units(old(self)@, sec.0) <= usize::MAX,
        ensures
            moved == (position(old(self)@, seller.0, sec.0) >= 1),
            moved ==> final(self)@ == after_move(old(self)@, sec.0, seller.0, buyer.0),
            !moved ==> final(self)@ == old(self)@,
            final(self).wf(),
    {
        let mut record = take_record(&mut self.records, seller.0).unwrap();
        if !record.withdraw_one(sec) {
            put_record(&mut self.records, seller.0, record);
            assert(self@ =~= old(self)@);
            return false;
        }
        put_record(&mut self.records, seller.0, record);
        let ghost debited = self@;
        let mut record = take_record(&mut self.records, buyer.0).unwrap();
        proof {
            let start = old(self)@;
            assert(debited =~= start.insert(
                seller.0,
                start[seller.0].insert(sec.0, (units_in(start[seller.0], sec.0) - 1) as usize),
            ));
            let col = column(start, sec.0);
            assert(col.dom() =~= start.dom());
            lemma_column_insert(start, seller.0, debited[seller.0], sec.0);
            lemma_sum_insert(col, seller.0, (held(col, seller.0) - 1) as nat);
            lemma_held_within_sum(column(debited, sec.0), buyer.0);
        }
        record.deposit_one(sec);
        put_record(&mut self.records, buyer.0, record);
        assert(self@ =~= after_move(old(self)@, sec.0, seller.0, buyer.0));
        true
    }

    /// The units of `sec` in existence.
    pub fn total(&self, sec: SecId) -> (units: u128)
        ensures
            units == total_units(self@, sec.0),
    {
        let ids = record_ids(&self.records);
        let ghost col = column(self@, sec.0);
        let mut units: u128 = 0;
        let mut at: usize = 0;
        assert(col.restrict(ids@.take(0).to_set()) =~= Map::<u128, nat>::empty());
        assert(col.dom() =~= self@.dom());
        while at < ids.len()
            invariant
                at <= ids@.len(),
                ids@.no_duplicates(),
                ids@.to_set() == col.dom(),
                col == column(self@, sec.0),
                col.restrict(ids@.take(at as int).to_set()).dom().finite(),
                units == sum(col.restrict(ids@.take(at as int).to_set())),
                units <= at * usize::MAX,
            decreases ids@.len() - at,
        {
            let id = ids[at];
            assert(ids@.to_set().contains(id));
            let found = units_at(&self.records, id, sec).unwrap();
            proof {
                let before = ids@.take(at as int);
                let after = ids@.take(at + 1);
                assert(after =~= before.push(id));
                before.lemma_push_to_set_commute(id);
                assert(!before.to_set().contains(id)) by {
                    if before.to_set().contains(id) {
                        let j = choose|j: int| 0 <= j < before.len() && before[j] == id;
                        assert(ids@[j] == id);
                    }
                }
                let part = col.restrict(before.to_set());
                assert(col.restrict(after.to_set()) =~= part.insert(id, found as nat));
                lemma_sum_insert(part, id, found as nat);
                assert((at + 1) * usize::MAX == at * usize::MAX + usize::MAX) by (nonlinear_arith);
                assert((at + 1) * usize::MAX <= usize::MAX * usize::MAX) by (nonlinear_arith)
                    requires
                        at + 1 <= usize::MAX,
                ;
                assert(usize::MAX * usize::MAX < u128::MAX) by (nonlinear_arith)
                    requires
                        usize::MAX <= 0xffff_ffff_ffff_ffff,
                        u128::MAX == 0xffff_ffff_ffff_ffff_ffff_ffff_ffff_ffff,
                ;
            }
            units = units + found as u128;
            at += 1;
        }
        proof {
            assert(ids@.take(at as int) =~= ids@);
            assert(col.restrict(ids@.to_set()) =~= col);
        }
        units
    }
}

} // verus!
