//! The symbol mangler: slots are numbered scope by scope, and once the whole
//! program is known each slot gets a short name, the most frequent slots the
//! shortest.

use vstd::prelude::*;
use crate::base54::{is_identifier, lemma_name_injective, lemma_name_is_identifier, lemma_name_len_monotonic};
use crate::candidate::{
    candidate, lemma_candidate_not_reserved, lemma_ordinal_at_bound, lemma_ordinal_at_increases,
    next_name, ordinal_at, LONG_NAMES,
};
use crate::frequency::{
    aggregate, frequency, is_linked, lemma_frequency_of_linked, lemma_unassigned_adds_nothing,
    slots_within, Symbol,
};
use crate::keyword::is_reserved;
use crate::ranking::{
    lemma_order_by_rank, lemma_rank_by_frequency, lemma_rank_injective, rank, sort_buckets,
    tallies,
};
use crate::slot::Slot;

verus! {

/// Numbers the bindings of each scope and holds the names they are given.
#[derive(Debug)]
pub struct Mangler {
    /// The slot that the next binding of the scope at hand will get.
    current_slot: Slot,
    /// The highest value that `current_slot` has reached in any scope.
    max_slot: Slot,
    /// The generated names: the name of a slot stands at the slot's index.
    mangled_names: Vec<String>,
}

/// What a mangler holds, as plain values.
pub struct ManglerView {
    pub current_slot: nat,
    pub max_slot: nat,
    pub names: Seq<Seq<char>>,
}

impl ManglerView {
    /// How many slots the table has room for: the largest number of
    /// bindings that was counted in one scope.
    pub open spec fn slot_count(self) -> nat {
        if self.max_slot == 0 {
            0
        } else {
            (self.max_slot - 1) as nat
        }
    }

    /// The state after one more binding was numbered.
    pub open spec fn after_next_slot(self) -> ManglerView {
        ManglerView {
            current_slot: self.current_slot + 1,
            max_slot: if self.current_slot + 1 > self.max_slot {
                self.current_slot + 1
            } else {
                self.max_slot
            },
            names: self.names,
        }
    }

    /// The state after a scope was entered.
    pub open spec fn after_reset_slot(self) -> ManglerView {
        ManglerView { current_slot: 1, max_slot: self.max_slot, names: self.names }
    }

    /// The state after the names were assigned for `symbols`.
    pub open spec fn after_assignment(self, symbols: Seq<Symbol>) -> ManglerView {
        ManglerView {
            current_slot: self.current_slot,
            max_slot: self.max_slot,
            names: assignment(symbols, self.slot_count()),
        }
    }
}

impl View for Mangler {
    type V = ManglerView;

    closed spec fn view(&self) -> ManglerView {
        ManglerView {
            current_slot: self.current_slot.0 as nat,
            max_slot: self.max_slot.0 as nat,
            names: Seq::new(self.mangled_names@.len(), |i: int| self.mangled_names@[i]@),
        }
    }
}

/// The aggregated frequencies of the first `slots` slots.
pub open spec fn frequencies(symbols: Seq<Symbol>, slots: nat) -> Seq<nat> {
    Seq::new(slots, |i: int| frequency(symbols, i))
}

/// The table of names for `symbols`, with room for `slots` slots: the slot
/// at index `i` bears the candidate that its rank picks.
pub open spec fn assignment(symbols: Seq<Symbol>, slots: nat) -> Seq<Seq<char>> {
    Seq::new(slots, |i: int| candidate(rank(frequencies(symbols, slots), i)))
}

/// No two slots share a name.
pub proof fn lemma_names_are_unique(symbols: Seq<Symbol>, slots: nat, i: int, j: int)
    requires
        0 <= i < slots,
        0 <= j < slots,
        i != j,
    ensures
        assignment(symbols, slots)[i] != assignment(symbols, slots)[j],
{
    let f = frequencies(symbols, slots);
    lemma_rank_injective(f, i, j);
    if rank(f, i) < rank(f, j) {
        lemma_ordinal_at_increases(rank(f, i), rank(f, j));
    } else {
        lemma_ordinal_at_increases(rank(f, j), rank(f, i));
    }
    if candidate(rank(f, i)) == candidate(rank(f, j)) {
        lemma_name_injective(ordinal_at(rank(f, i)), ordinal_at(rank(f, j)));
    }
}

/// No name in the table is a reserved word.
pub proof fn lemma_names_are_not_reserved(symbols: Seq<Symbol>, slots: nat, i: int)
    requires
        0 <= i < slots,
    ensures
        !is_reserved(assignment(symbols, slots)[i]),
{
    lemma_candidate_not_reserved(rank(frequencies(symbols, slots), i));
}

/// Every name in the table is an identifier: a leading symbol, then
/// continuing symbols. In particular no entry is empty.
pub proof fn lemma_names_are_identifiers(symbols: Seq<Symbol>, slots: nat, i: int)
    requires
        0 <= i < slots,
    ensures
        is_identifier(assignment(symbols, slots)[i]),
{
    lemma_name_is_identifier(ordinal_at(rank(frequencies(symbols, slots), i)));
}

/// A slot that occurs more often than another never has the longer name.
pub proof fn lemma_frequent_names_are_short(symbols: Seq<Symbol>, slots: nat, a: int, b: int)
    requires
        0 <= a < slots,
        0 <= b < slots,
        frequency(symbols, a) > frequency(symbols, b),
    ensures
        assignment(symbols, slots)[a].len() <= assignment(symbols, slots)[b].len(),
{
    let f = frequencies(symbols, slots);
    lemma_rank_by_frequency(f, a, b);
    lemma_ordinal_at_increases(rank(f, a), rank(f, b));
    lemma_name_len_monotonic(ordinal_at(rank(f, a)), ordinal_at(rank(f, b)));
}

/// Every slot that some symbol bears has a place in the table, and a name
/// of at least one character there.
pub proof fn lemma_linked_slots_are_named(symbols: Seq<Symbol>, slots: nat, i: int)
    requires
        slots_within(symbols, slots as int),
        is_linked(symbols, i),
    ensures
        0 <= i < slots,
        assignment(symbols, slots)[i].len() >= 1,
{
    let k = choose|k: int| 0 <= k < symbols.len() && (#[trigger] symbols[k]).is_linked_to(i);
    assert(symbols[k].slot.0 != 0);
    lemma_names_are_identifiers(symbols, slots, i);
}

/// A slot that some symbol bears is served before every slot that no
/// symbol bears: names are spent on such slots only when all others have
/// theirs.
pub proof fn lemma_linked_slots_go_first(symbols: Seq<Symbol>, slots: nat, a: int, b: int)
    requires
        0 <= a < slots,
        0 <= b < slots,
        is_linked(symbols, a),
        !is_linked(symbols, b),
    ensures
        rank(frequencies(symbols, slots), a) < rank(frequencies(symbols, slots), b),
{
    lemma_frequency_of_linked(symbols, a);
    lemma_frequency_of_linked(symbols, b);
    lemma_rank_by_frequency(frequencies(symbols, slots), a, b);
}

/// A symbol without a slot leaves no trace in the table: with it or without
/// it, every slot gets the same name.
pub proof fn lemma_unassigned_is_ignored(symbols: Seq<Symbol>, slots: nat, k: int)
    requires
        0 <= k < symbols.len(),
        symbols[k].slot.0 == 0,
    ensures
        assignment(symbols.remove(k), slots) == assignment(symbols, slots),
{
    assert(frequencies(symbols.remove(k), slots) =~= frequencies(symbols, slots)) by {
        assert forall|i: int| 0 <= i < slots implies frequency(symbols.remove(k), i) == frequency(
            symbols,
            i,
        ) by {
            lemma_unassigned_adds_nothing(symbols, k, i);
        }
    }
}

/// The table depends on nothing but the number of slots and the symbols:
/// two manglers that counted the same number of slots and assigned names
/// for the same symbols hold the same table.
pub proof fn lemma_assignment_is_deterministic(
    first: ManglerView,
    second: ManglerView,
    symbols: Seq<Symbol>,
)
    requires
        first.max_slot == second.max_slot,
    ensures
        first.after_assignment(symbols).names == second.after_assignment(symbols).names,
{
}

impl Default for Mangler {
    /// A mangler that has numbered no binding and holds no name.
    fn default() -> (mangler: Mangler)
        ensures
            mangler@ == (ManglerView { current_slot: 0, max_slot: 0, names: Seq::empty() }),
    {
        let mangler = Mangler { current_slot: Slot(0), max_slot: Slot(0), mangled_names: Vec::new() };
        proof {
            assert(mangler@.names =~= Seq::empty());
        }
        mangler
    }
}

impl Mangler {
    /// The slot that the next binding of the scope at hand will get.
    pub fn current_slot(&self) -> (slot: Slot)
        ensures
            slot.0 == self@.current_slot,
    {
        self.current_slot
    }

    /// The highest value that the current slot has reached in any scope.
    pub fn max_slot(&self) -> (slot: Slot)
        ensures
            slot.0 == self@.max_slot,
    {
        self.max_slot
    }

    /// The slot for the next binding of the scope at hand.
    pub fn next_slot(&mut self) -> (slot: Slot)
        requires
            old(self)@.current_slot < usize::MAX,
        ensures
            slot.0 == old(self)@.current_slot,
            final(self)@ == old(self)@.after_next_slot(),
    {
        let slot = self.current_slot;
        self.current_slot.increment();
        if self.current_slot.0 > self.max_slot.0 {
            self.max_slot = self.current_slot;
        }
        slot
    }

    /// Starts the numbering anew, at the entry of a scope.
    pub fn reset_slot(&mut self)
        ensures
            final(self)@ == old(self)@.after_reset_slot(),
    {
        self.current_slot = Slot(1);
    }

    /// Whether the table holds a name for `slot`.
    pub fn has_name(&self, slot: Slot) -> (held: bool)
        ensures
            held == (slot.0 != 0 && slot.spec_index() < self@.names.len()),
    {
        slot.is_some() && slot.index() < self.mangled_names.len()
    }

    /// Whether every slot that `symbols` bear was counted by this mangler,
    /// so that the table will have a place for it.
    pub fn covers(&self, symbols: &[Symbol]) -> (covered: bool)
        ensures
            covered == slots_within(symbols@, self@.slot_count() as int),
    {
        let slots: usize = if self.max_slot.is_some() {
            self.max_slot.index()
        } else {
            0
        };
        let mut k: usize = 0;
        while k < symbols.len()
            invariant
                k <= symbols@.len(),
                slots == self@.slot_count(),
                slots_within(symbols@.subrange(0, k as int), slots as int),
            decreases symbols@.len() - k,
        {
            let slot = symbols[k].slot;
            if slot.is_some() && slot.index() >= slots {
                return false;
            }
            proof {
                let seen = symbols@.subrange(0, k as int);
                let next = symbols@.subrange(0, k + 1);
                assert forall|j: int| 0 <= j < next.len() && (#[trigger] next[j]).slot.0 != 0 implies next[j].slot.spec_index()
                    < slots by {
                    if j < k {
                        assert(next[j] == seen[j]);
                    }
                }
            }
            k += 1;
        }
        proof {
            assert(symbols@.subrange(0, k as int) == symbols@);
        }
        true
    }

    /// The name that was generated for `slot`.
    pub fn mangled_name(&self, slot: Slot) -> (name: String)
        requires
            slot.0 != 0,
            slot.spec_index() < self@.names.len(),
        ensures
            name@ == self@.names[slot.spec_index()],
    {
        self.mangled_names[slot.index()].clone()
    }

    /// Assigns the names, once all scopes were walked: counts how often each
    /// slot occurs in `symbols`, and gives the slots their names, the most
    /// frequent slot first.
    pub fn compute_slot_frequency(&mut self, symbols: &[Symbol])
        requires
            slots_within(symbols@, old(self)@.slot_count() as int),
        ensures
            final(self)@ == old(self)@.after_assignment(symbols@),
            final(self)@.names.len() == old(self)@.slot_count(),
            forall|i: int|
                0 <= i < final(self)@.names.len() ==> is_identifier(#[trigger] final(self)@.names[i])
                    && !is_reserved(final(self)@.names[i]),
            forall|i: int, j: int|
                0 <= i < final(self)@.names.len() && 0 <= j < final(self)@.names.len() && i != j
                    ==> #[trigger] final(self)@.names[i] != #[trigger] final(self)@.names[j],
            forall|a: int, b: int|
                0 <= a < final(self)@.names.len() && 0 <= b < final(self)@.names.len() && frequency(
                    symbols@,
                    a,
                ) > frequency(symbols@, b) ==> (#[trigger] final(self)@.names[a]).len() <= (
                #[trigger] final(self)@.names[b]).len(),
    {
        let slots: usize = if self.max_slot.is_some() {
            self.max_slot.index()
        } else {
            0
        };
        let buckets = aggregate(symbols, slots);
        let order = sort_buckets(&buckets);
        let ghost f = frequencies(symbols@, slots as nat);
        proof {
            lemma_order_by_rank(buckets@, order@);
            assert(tallies(buckets@) == f);
        }
        let mut names: Vec<String> = Vec::new();
        let mut i: usize = 0;
        while i < slots
            invariant
                i <= slots,
                names@.len() == i,
            decreases slots - i,
        {
            names.push(String::new());
            i += 1;
        }
        let mut ordinal: u128 = 0;
        let mut p: usize = 0;
        while p < slots
            invariant
                p <= slots,
                names@.len() == slots,
                order@.len() == slots,
                f.len() == slots,
                forall|q: int|
                    0 <= q < slots ==> 0 <= (#[trigger] order@[q]).index < slots && rank(
                        f,
                        order@[q].index as int,
                    ) == q,
                ordinal <= p + LONG_NAMES,
                p == 0 ==> ordinal == 0,
                p > 0 ==> ordinal == ordinal_at((p - 1) as nat) + 1,
                forall|q: int| 0 <= q < p ==> names@[(#[trigger] order@[q]).index as int]@ == candidate(q as nat),
            decreases slots - p,
        {
            proof {
                lemma_ordinal_at_bound(p as nat);
            }
            let name = next_name(&mut ordinal);
            let ghost before = names@;
            names.set(order[p].index, name);
            proof {
                assert forall|q: int| 0 <= q < p + 1 implies names@[(#[trigger] order@[q]).index as int]@
                    == candidate(q as nat) by {
                    if q < p {
                        assert(rank(f, order@[q].index as int) == q);
                        assert(rank(f, order@[p as int].index as int) == p);
                        assert(names@[order@[q].index as int] == before[order@[q].index as int]);
                    }
                }
            }
            p += 1;
        }
        proof {
            let table = Seq::new(names@.len(), |i: int| names@[i]@);
            assert(table =~= assignment(symbols@, slots as nat)) by {
                assert forall|i: int| 0 <= i < slots implies table[i] == candidate(rank(f, i)) by {
                    let q = rank(f, i) as int;
                    assert(order@[q] == buckets@[i]);
                    assert(names@[order@[q].index as int]@ == candidate(q as nat));
                }
            }
        }
        self.mangled_names = names;
        proof {
            let table = assignment(symbols@, slots as nat);
            assert(self@.names == table);
            assert forall|i: int| 0 <= i < slots implies is_identifier(#[trigger] table[i])
                && !is_reserved(table[i]) by {
                lemma_names_are_identifiers(symbols@, slots as nat, i);
                lemma_names_are_not_reserved(symbols@, slots as nat, i);
            }
            assert forall|i: int, j: int| 0 <= i < slots && 0 <= j < slots && i != j implies #[trigger] table[i]
                != #[trigger] table[j] by {
                lemma_names_are_unique(symbols@, slots as nat, i, j);
            }
            assert forall|a: int, b: int|
                0 <= a < slots && 0 <= b < slots && frequency(symbols@, a) > frequency(
                    symbols@,
                    b,
                ) implies (#[trigger] table[a]).len() <= (#[trigger] table[b]).len() by {
                lemma_frequent_names_are_short(symbols@, slots as nat, a, b);
            }
        }
    }
}

} // verus!
