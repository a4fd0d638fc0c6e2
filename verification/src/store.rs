//! The account store: one durable record per address.

use vstd::prelude::*;
use crate::account::{AccountRecord, AccountView};
use crate::address::Address;

verus! {

/// No address occurs twice.
pub open spec fn distinct_addresses(s: Seq<AccountRecord>) -> bool {
    forall|i: int, j: int| 0 <= i < j < s.len() ==> s[i].address != s[j].address
}

/// Every record is in its durable form.
pub open spec fn all_durable(s: Seq<AccountRecord>) -> bool {
    forall|i: int| 0 <= i < s.len() ==> !s[i].is_signer && !s[i].is_writable
}

/// An address is held at some position.
pub open spec fn holds(s: Seq<AccountRecord>, a: Address) -> bool {
    exists|i: int| 0 <= i < s.len() && s[i].address == a
}

/// A position at which an address is held.
pub open spec fn position_of(s: Seq<AccountRecord>, a: Address) -> int {
    choose|i: int| 0 <= i < s.len() && s[i].address == a
}

/// The mapping that a list of records stands for.
pub open spec fn records_map(s: Seq<AccountRecord>) -> Map<Address, AccountView> {
    Map::new(|a: Address| holds(s, a), |a: Address| s[position_of(s, a)]@)
}

/// Every record is held under its own address, in durable form.
pub open spec fn keyed_by_address(store: Map<Address, AccountView>) -> bool {
    forall|a: Address|
        store.contains_key(a) ==> (#[trigger] store[a]).address == a && !store[a].is_signer
            && !store[a].is_writable
}

/// A list of durable records without repeated addresses stands for a mapping
/// that holds each record under its own address.
pub proof fn lemma_records_map_keyed(s: Seq<AccountRecord>)
    requires
        distinct_addresses(s),
        all_durable(s),
    ensures
        keyed_by_address(records_map(s)),
{
    assert forall|a: Address| records_map(s).contains_key(a) implies (#[trigger] records_map(
        s,
    )[a]).address == a && !records_map(s)[a].is_signer && !records_map(s)[a].is_writable by {
        let k = position_of(s, a);
        assert(0 <= k < s.len() && s[k].address == a);
    }
}

/// In a list without repeated addresses each record is found under its own
/// address.
pub proof fn lemma_records_map_at(s: Seq<AccountRecord>, i: int)
    requires
        distinct_addresses(s),
        0 <= i < s.len(),
    ensures
        records_map(s).contains_key(s[i].address),
        records_map(s)[s[i].address] == s[i]@,
{
    let a = s[i].address;
    assert(holds(s, a));
    let k = position_of(s, a);
    assert(0 <= k < s.len() && s[k].address == a);
    if k < i {
        assert(s[k].address != s[i].address);
    } else if i < k {
        assert(s[i].address != s[k].address);
    }
}

/// Keyed storage of account records. What is stored is the durable form of a
/// record: address, owner, data and balance, with both flags cleared.
///
/// Records are handed out as copies. Reading takes the store by shared
/// reference, so many may read at once; a change takes it by exclusive
/// reference, so a writer has the store to itself.
pub struct AccountStore {
    records: Vec<AccountRecord>,
}

impl View for AccountStore {
    type V = Map<Address, AccountView>;

    closed spec fn view(&self) -> Map<Address, AccountView> {
        records_map(self.records@)
    }
}

impl AccountStore {
    #[verifier::type_invariant]
    closed spec fn well_formed(self) -> bool {
        distinct_addresses(self.records@) && all_durable(self.records@)
    }

    /// A store that holds nothing.
    pub fn new() -> (s: AccountStore)
        ensures
            s@ == Map::<Address, AccountView>::empty(),
            keyed_by_address(s@),
    {
        let s = AccountStore { records: Vec::new() };
        assert(s@ =~= Map::<Address, AccountView>::empty());
        s
    }

    /// Where the record of `address` stands, if it is held.
    fn find(&self, address: &Address) -> (r: Option<usize>)
        ensures
            match r {
                Some(i) => i < self.records@.len() && self.records@[i as int].address == *address,
                None => !holds(self.records@, *address),
            },
    {
        let mut i: usize = 0;
        while i < self.records.len()
            invariant
                i <= self.records.len(),
                forall|j: int| 0 <= j < i ==> self.records@[j].address != *address,
            decreases self.records.len() - i,
        {
            if self.records[i].address == *address {
                return Some(i);
            }
            i += 1;
        }
        None
    }

    /// Number of records held.
    pub fn len(&self) -> (n: usize)
        ensures
            n == self@.dom().len(),
            self@.dom().finite(),
            keyed_by_address(self@),
    {
        proof {
            use_type_invariant(self);
            lemma_records_map_len(self.records@);
            lemma_records_map_keyed(self.records@);
        }
        self.records.len()
    }

    /// Every record held, each once, in durable form.
    pub fn records(&self) -> (r: Vec<AccountRecord>)
        ensures
            distinct_addresses(r@),
            all_durable(r@),
            records_map(r@) == self@,
    {
        proof {
            use_type_invariant(self);
        }
        let mut r: Vec<AccountRecord> = Vec::new();
        let mut i: usize = 0;
        while i < self.records.len()
            invariant
                i <= self.records.len(),
                r.len() == i,
                forall|k: int| 0 <= k < i ==> (#[trigger] r@[k])@ == self.records@[k]@,
            decreases self.records.len() - i,
        {
            r.push(self.records[i].clone());
            i += 1;
        }
        proof {
            let mine = self.records@;
            assert forall|p: int, q: int| 0 <= p < q < r@.len() implies r@[p].address
                != r@[q].address by {
                assert(r@[p]@ == mine[p]@);
                assert(r@[q]@ == mine[q]@);
            }
            assert forall|k: int| 0 <= k < r@.len() implies !r@[k].is_signer
                && !r@[k].is_writable by {
                assert(r@[k]@ == mine[k]@);
            }
            assert forall|a: Address| holds(r@, a) == holds(mine, a) by {
                if holds(r@, a) {
                    let k = position_of(r@, a);
                    assert(r@[k]@ == mine[k]@);
                    assert(mine[k].address == a);
                }
                if holds(mine, a) {
                    let k = position_of(mine, a);
                    assert(r@[k]@ == mine[k]@);
                    assert(r@[k].address == a);
                }
            }
            assert forall|a: Address| #[trigger] records_map(r@).contains_key(a) implies records_map(
                r@,
            )[a] == records_map(mine)[a] by {
                let k = position_of(r@, a);
                lemma_records_map_at(r@, k);
                assert(r@[k]@ == mine[k]@);
                lemma_records_map_at(mine, k);
            }
            assert(records_map(r@) =~= records_map(mine));
        }
        r
    }

    /// Whether a record is held under `address`.
    pub fn contains(&self, address: &Address) -> (b: bool)
        ensures
            b == self@.contains_key(*address),
    {
        self.find(address).is_some()
    }

    /// The record held under `address`, if there is one. The copy handed out
    /// is in durable form and carries the address it was asked for.
    pub fn lookup(&self, address: &Address) -> (r: Option<AccountRecord>)
        ensures
            match r {
                Some(record) => self@.contains_key(*address) && record@ == self@[*address]
                    && record.address == *address && !record.is_signer && !record.is_writable,
                None => !self@.contains_key(*address),
            },
            keyed_by_address(self@),
    {
        proof {
            use_type_invariant(self);
            lemma_records_map_keyed(self.records@);
        }
        match self.find(address) {
            Some(i) => {
                proof {
                    lemma_records_map_at(self.records@, i as int);
                }
                Some(self.records[i].clone())
            },
            None => None,
        }
    }

    /// Puts the durable form of `record` under its address, in place of what
    /// was held there.
    pub fn store(&mut self, record: &AccountRecord)
        ensures
            final(self)@ == old(self)@.insert(record.address, record@.durable()),
            keyed_by_address(old(self)@),
            keyed_by_address(final(self)@),
    {
        proof {
            use_type_invariant(&*self);
            lemma_records_map_keyed(self.records@);
        }
        let durable = record.clone_for_storage();
        let ghost before = self.records@;
        let found = self.find(&record.address);
        let mut records: Vec<AccountRecord> = Vec::new();
        core::mem::swap(&mut self.records, &mut records);
        match found {
            Some(i) => {
                records.set(i, durable);
                proof {
                    let after = records@;
                    assert(distinct_addresses(after));
                    assert forall|a: Address| #[trigger] records_map(after).contains_key(a) == records_map(before).insert(
                        record.address,
                        record@.durable(),
                    ).contains_key(a) by {
                        if holds(after, a) {
                            let k = position_of(after, a);
                            assert(before[k].address == a);
                        }
                        if holds(before, a) {
                            let k = position_of(before, a);
                            assert(after[k].address == a);
                        }
                        assert(after[i as int].address == record.address);
                    }
                    assert forall|a: Address| #[trigger] records_map(after).contains_key(a) implies records_map(after)[a]
                        == records_map(before).insert(record.address, record@.durable())[a] by {
                        let k = position_of(after, a);
                        lemma_records_map_at(after, k);
                        if k != i {
                            lemma_records_map_at(before, k);
                        }
                    }
                    assert(records_map(after) =~= records_map(before).insert(
                        record.address,
                        record@.durable(),
                    ));
                }
            },
            None => {
                records.push(durable);
                proof {
                    let after = records@;
                    let n = before.len() as int;
                    assert(after[n].address == record.address);
                    assert forall|p: int, q: int| 0 <= p < q < after.len() implies after[p].address
                        != after[q].address by {
                        if q == n {
                            assert(before[p].address == after[p].address);
                        }
                    }
                    assert forall|a: Address| #[trigger] records_map(after).contains_key(a) == records_map(before).insert(
                        record.address,
                        record@.durable(),
                    ).contains_key(a) by {
                        if holds(after, a) {
                            let k = position_of(after, a);
                            if k < n {
                                assert(before[k].address == a);
                            }
                        }
                        if holds(before, a) {
                            let k = position_of(before, a);
                            assert(after[k].address == a);
                        }
                    }
                    assert forall|a: Address| #[trigger] records_map(after).contains_key(a) implies records_map(after)[a]
                        == records_map(before).insert(record.address, record@.durable())[a] by {
                        let k = position_of(after, a);
                        lemma_records_map_at(after, k);
                        if k != n {
                            lemma_records_map_at(before, k);
                        }
                    }
                    assert(records_map(after) =~= records_map(before).insert(
                        record.address,
                        record@.durable(),
                    ));
                }
            },
        }
        self.records = records;
    }

    /// Removes what is held under `address`. Purging an address that holds
    /// nothing changes nothing.
    pub fn purge(&mut self, address: &Address)
        ensures
            final(self)@ == old(self)@.remove(*address),
            keyed_by_address(old(self)@),
            keyed_by_address(final(self)@),
    {
        proof {
            use_type_invariant(&*self);
            lemma_records_map_keyed(self.records@);
        }
        let ghost before = self.records@;
        let found = self.find(address);
        let mut records: Vec<AccountRecord> = Vec::new();
        core::mem::swap(&mut self.records, &mut records);
        match found {
            Some(i) => {
                records.remove(i);
                proof {
                    let after = records@;
                    assert forall|p: int| 0 <= p < after.len() implies after[p] == before[if p < i {
                        p
                    } else {
                        p + 1
                    }] by {}
                    assert forall|p: int, q: int| 0 <= p < q < after.len() implies after[p].address
                        != after[q].address by {
                        let pp = if p < i { p } else { p + 1 };
                        let qq = if q < i { q } else { q + 1 };
                        assert(before[pp].address != before[qq].address);
                    }
                    assert forall|a: Address| #[trigger] records_map(after).contains_key(a) == records_map(before).remove(
                        *address,
                    ).contains_key(a) by {
                        if holds(after, a) {
                            let k = position_of(after, a);
                            let kk = if k < i { k } else { k + 1 };
                            assert(before[kk].address == a);
                            if kk < i {
                                assert(before[kk].address != before[i as int].address);
                            } else {
                                assert(before[i as int].address != before[kk].address);
                            }
                        }
                        if holds(before, a) && a != *address {
                            let k = position_of(before, a);
                            let kk = if k < i { k } else { k - 1 };
                            assert(after[kk].address == a);
                        }
                    }
                    assert forall|a: Address| #[trigger] records_map(after).contains_key(a) implies records_map(after)[a]
                        == records_map(before).remove(*address)[a] by {
                        let k = position_of(after, a);
                        lemma_records_map_at(after, k);
                        let kk = if k < i { k } else { k + 1 };
                        lemma_records_map_at(before, kk);
                    }
                    assert(records_map(after) =~= records_map(before).remove(*address));
                }
            },
            None => {
                assert(records_map(before) =~= records_map(before).remove(*address));
            },
        }
        self.records = records;
    }
}

/// A list without repeated addresses stands for a mapping with as many keys
/// as the list has records.
pub proof fn lemma_records_map_len(s: Seq<AccountRecord>)
    requires
        distinct_addresses(s),
    ensures
        records_map(s).dom().finite(),
        records_map(s).dom().len() == s.len(),
    decreases s.len(),
{
    if s.len() == 0 {
        assert(records_map(s).dom() =~= Set::<Address>::empty());
    } else {
        let t = s.drop_last();
        let last = s.last();
        lemma_records_map_len(t);
        assert forall|a: Address| records_map(s).dom().contains(a) == records_map(t).dom().insert(
            last.address,
        ).contains(a) by {
            if holds(s, a) {
                let k = position_of(s, a);
                if k < t.len() {
                    assert(t[k].address == a);
                }
            }
            if holds(t, a) {
                let k = position_of(t, a);
                assert(s[k].address == a);
            }
            assert(s[s.len() - 1].address == last.address);
        }
        assert(records_map(s).dom() =~= records_map(t).dom().insert(last.address));
        if holds(t, last.address) {
            let k = position_of(t, last.address);
            assert(s[k].address == s[s.len() - 1].address);
        }
    }
}

/// A record that has been stored is found again under its address, with the
/// owner, the data and the balance that it was stored with.
pub proof fn lemma_store_then_lookup(store: Map<Address, AccountView>, record: AccountView)
    ensures
        store.insert(record.address, record.durable()).contains_key(record.address),
        store.insert(record.address, record.durable())[record.address].address == record.address,
        store.insert(record.address, record.durable())[record.address].owner == record.owner,
        store.insert(record.address, record.durable())[record.address].data == record.data,
        store.insert(record.address, record.durable())[record.address].balance == record.balance,
{
}

/// Storing a record leaves what is held under every other address as it was.
pub proof fn lemma_store_keeps_others(
    store: Map<Address, AccountView>,
    record: AccountView,
    other: Address,
)
    requires
        other != record.address,
    ensures
        store.insert(record.address, record.durable()).contains_key(other) == store.contains_key(
            other,
        ),
        store.contains_key(other) ==> store.insert(record.address, record.durable())[other]
            == store[other],
{
}

/// Purging twice is purging once, and nothing is found under a purged
/// address.
pub proof fn lemma_purge_idempotent(store: Map<Address, AccountView>, address: Address)
    ensures
        !store.remove(address).contains_key(address),
        store.remove(address).remove(address) == store.remove(address),
{
    assert(store.remove(address).remove(address) =~= store.remove(address));
}

} // verus!