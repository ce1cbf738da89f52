//! The weights of log addresses: a distinct small prime for each monitored
//! address, one for every other.

use vstd::prelude::*;

verus! {

/// One monitored address and the prime that stands for it.
pub struct Entry {
    pub address: String,
    pub prime: u128,
}

/// The monitored addresses with their primes. A later entry for an address
/// replaces an earlier one.
pub struct PrimeTable {
    entries: Vec<Entry>,
}

/// The table that `entries` make up.
pub open spec fn table_of(entries: Seq<Entry>) -> Map<Seq<char>, u128>
    decreases entries.len(),
{
    if entries.len() == 0 {
        Map::empty()
    } else {
        table_of(entries.drop_last()).insert(entries.last().address@, entries.last().prime)
    }
}

/// The weight of `address`: its prime where it is monitored, else one.
pub open spec fn weight_in(table: Map<Seq<char>, u128>, address: Seq<char>) -> u128 {
    if table.contains_key(address) {
        table[address]
    } else {
        1
    }
}

/// The weights of `addresses`, in order.
pub open spec fn weights_in(table: Map<Seq<char>, u128>, addresses: Seq<String>) -> Seq<u128> {
    Seq::new(addresses.len(), |i: int| weight_in(table, addresses[i]@))
}

impl View for PrimeTable {
    type V = Map<Seq<char>, u128>;

    closed spec fn view(&self) -> Map<Seq<char>, u128> {
        table_of(self.entries@)
    }
}

impl PrimeTable {
    /// The table that monitors nothing.
    pub fn new() -> (table: PrimeTable)
        ensures
            table@ == Map::<Seq<char>, u128>::empty(),
    {
        PrimeTable { entries: Vec::new() }
    }

    /// Monitors `address` under `prime`.
    pub fn insert(&mut self, address: String, prime: u128)
        ensures
            final(self)@ == old(self)@.insert(address@, prime),
    {
        let ghost before = self.entries@;
        self.entries.push(Entry { address, prime });
        assert(self.entries@.drop_last() =~= before);
    }

    /// The prime of `address`, where it is monitored.
    pub fn get(&self, address: &String) -> (prime: Option<u128>)
        ensures
            prime == if self@.contains_key(address@) {
                Some(self@[address@])
            } else {
                None
            },
    {
        let mut i: usize = self.entries.len();
        assert(self.entries@.take(i as int) =~= self.entries@);
        while i > 0
            invariant
                i <= self.entries@.len(),
                self@.contains_key(address@) == table_of(
                    self.entries@.take(i as int),
                ).contains_key(address@),
                self@.contains_key(address@) ==> self@[address@] == table_of(
                    self.entries@.take(i as int),
                )[address@],
            decreases i,
        {
            let ghost seen = self.entries@.take(i as int);
            assert(seen.drop_last() =~= self.entries@.take(i - 1));
            i = i - 1;
            if self.entries[i].address == *address {
                return Some(self.entries[i].prime);
            }
        }
        None
    }

    /// The weight of `address`: its prime where it is monitored, else one.
    pub fn weight_of(&self, address: &String) -> (weight: u128)
        ensures
            weight == weight_in(self@, address@),
    {
        match self.get(address) {
            Some(prime) => prime,
            None => 1,
        }
    }

    /// The weights of `addresses`, in order.
    pub fn weights_of(&self, addresses: &Vec<String>) -> (weights: Vec<u128>)
        ensures
            weights@ == weights_in(self@, addresses@),
    {
        let mut weights: Vec<u128> = Vec::new();
        let mut i: usize = 0;
        while i < addresses.len()
            invariant
                i <= addresses@.len(),
                weights@.len() == i,
                forall|j: int| 0 <= j < i ==> weights@[j] == weight_in(self@, addresses@[j]@),
            decreases addresses@.len() - i,
        {
            weights.push(self.weight_of(&addresses[i]));
            i = i + 1;
        }
        weights
    }
}

} // verus!
