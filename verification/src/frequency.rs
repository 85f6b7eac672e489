//! How often each slot occurs in a program.

use vstd::prelude::*;
use crate::slot::Slot;

verus! {

/// The identity of one place where a binding is referred to.
#[derive(Debug, Clone, Copy, PartialEq, Eq, Structural)]
pub struct ReferenceId(pub usize);

/// A binding as the mangler sees it: its slot, and the places that refer to it.
#[derive(Debug, Clone)]
pub struct Symbol {
    pub slot: Slot,
    pub references: Vec<ReferenceId>,
}

/// A slot, by its place in the table, with the occurrences counted for it.
#[derive(Debug, Clone, Copy, PartialEq, Eq, Structural)]
pub struct Bucket {
    pub index: usize,
    pub frequency: u128,
}

impl Symbol {
    /// Whether the binding takes part in mangling under the table place `index`.
    pub open spec fn is_linked_to(self, index: int) -> bool {
        self.slot.0 != 0 && self.slot.spec_index() == index
    }

    /// How often the binding occurs: once where it is declared, and once for
    /// each reference to it.
    pub open spec fn occurrences(self) -> nat {
        self.references@.len() + 1
    }
}

/// The aggregated frequency of the slot at table place `index`: the
/// occurrences of all symbols that bear this slot, whatever their scope.
pub open spec fn frequency(symbols: Seq<Symbol>, index: int) -> nat
    decreases symbols.len(),
{
    if symbols.len() == 0 {
        0
    } else {
        let rest = frequency(symbols.drop_last(), index);
        if symbols.last().is_linked_to(index) {
            rest + symbols.last().occurrences()
        } else {
            rest
        }
    }
}

/// Whether at least one symbol bears the slot at table place `index`.
pub open spec fn is_linked(symbols: Seq<Symbol>, index: int) -> bool {
    exists|k: int| 0 <= k < symbols.len() && (#[trigger] symbols[k]).is_linked_to(index)
}

/// Whether every symbol that has a slot has one of the first `slots` slots.
pub open spec fn slots_within(symbols: Seq<Symbol>, slots: int) -> bool {
    forall|k: int|
        0 <= k < symbols.len() && (#[trigger] symbols[k]).slot.0 != 0 ==> symbols[k].slot.spec_index()
            < slots
}

/// A slot that some symbol bears has a frequency above zero; one that no
/// symbol bears has frequency zero.
pub proof fn lemma_frequency_of_linked(symbols: Seq<Symbol>, index: int)
    ensures
        is_linked(symbols, index) <==> frequency(symbols, index) > 0,
    decreases symbols.len(),
{
    if symbols.len() > 0 {
        let front = symbols.drop_last();
        lemma_frequency_of_linked(front, index);
        if is_linked(symbols, index) {
            let k = choose|k: int| 0 <= k < symbols.len() && (#[trigger] symbols[k]).is_linked_to(index);
            if k < front.len() {
                assert(front[k].is_linked_to(index));
            }
        }
        if frequency(symbols, index) > 0 {
            if symbols.last().is_linked_to(index) {
                assert(symbols[symbols.len() - 1].is_linked_to(index));
            } else {
                let k = choose|k: int| 0 <= k < front.len() && (#[trigger] front[k]).is_linked_to(index);
                assert(symbols[k].is_linked_to(index));
            }
        }
    }
}

/// A symbol without a slot adds to no frequency: with it or without it,
/// every slot has the same frequency.
pub proof fn lemma_unassigned_adds_nothing(symbols: Seq<Symbol>, k: int, index: int)
    requires
        0 <= k < symbols.len(),
        symbols[k].slot.0 == 0,
    ensures
        frequency(symbols.remove(k), index) == frequency(symbols, index),
    decreases symbols.len(),
{
    if k == symbols.len() - 1 {
        assert(symbols.remove(k) == symbols.drop_last());
    } else {
        lemma_unassigned_adds_nothing(symbols.drop_last(), k, index);
        assert(symbols.remove(k).drop_last() == symbols.drop_last().remove(k));
        assert(symbols.remove(k).last() == symbols.last());
    }
}

/// Counts the occurrences of each of the first `slots` slots: the bucket at
/// place `i` holds the aggregated frequency of the slot at table place `i`.
/// A symbol without a slot adds to no bucket.
pub fn aggregate(symbols: &[Symbol], slots: usize) -> (buckets: Vec<Bucket>)
    requires
        slots_within(symbols@, slots as int),
    ensures
        buckets@.len() == slots,
        forall|i: int|
            0 <= i < slots ==> (#[trigger] buckets@[i]).index == i && buckets@[i].frequency == frequency(
                symbols@,
                i,
            ),
{
    let mut buckets: Vec<Bucket> = Vec::new();
    let mut i: usize = 0;
    while i < slots
        invariant
            i <= slots,
            buckets@.len() == i,
            forall|j: int| 0 <= j < i ==> (#[trigger] buckets@[j]) == (Bucket { index: j as usize, frequency: 0 }),
        decreases slots - i,
    {
        buckets.push(Bucket { index: i, frequency: 0 });
        i += 1;
    }
    let mut k: usize = 0;
    while k < symbols.len()
        invariant
            k <= symbols@.len(),
            slots_within(symbols@, slots as int),
            buckets@.len() == slots,
            forall|j: int|
                0 <= j < slots ==> {
                    &&& (#[trigger] buckets@[j]).index == j
                    &&& buckets@[j].frequency == frequency(symbols@.subrange(0, k as int), j)
                    &&& buckets@[j].frequency <= k * 0x1_0000_0000_0000_0000
                },
        decreases symbols@.len() - k,
    {
        let symbol = &symbols[k];
        let ghost seen = symbols@.subrange(0, k as int);
        let ghost next = symbols@.subrange(0, k + 1);
        proof {
            assert(next.drop_last() == seen);
            assert(next.last() == symbols@[k as int]);
        }
        if symbol.slot.is_some() {
            let index = symbol.slot.index();
            let bucket = buckets[index];
            let occurrences: u128 = symbol.references.len() as u128 + 1;
            buckets.set(index, Bucket { index, frequency: bucket.frequency + occurrences });
        }
        k += 1;
    }
    proof {
        assert(symbols@.subrange(0, k as int) == symbols@);
    }
    buckets
}

} // verus!
