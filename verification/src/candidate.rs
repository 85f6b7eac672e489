//! The names that are handed out: the identifiers in the order of their
//! ordinals, without the reserved words.

use vstd::prelude::*;
use crate::base54::{base54, first_of_len, lemma_name_len, lemma_name_len_monotonic, name_of};
use crate::keyword::{is_keyword, is_reserved, lemma_reserved_shape};

verus! {

/// The ordinal of the first name of five characters. Every reserved word is
/// shorter, so from here on no name is reserved.
pub const LONG_NAMES: u128 = 14_380_470;

/// The first ordinal, from `start` on, whose name is not reserved.
pub open spec fn free_from(start: nat) -> nat
    decreases LONG_NAMES - start,
    via free_from_decreases
{
    if is_reserved(name_of(start)) {
        free_from(start + 1)
    } else {
        start
    }
}

#[via_fn]
proof fn free_from_decreases(start: nat) {
    if is_reserved(name_of(start)) {
        lemma_reserved_is_short(start);
    }
}

/// The ordinal of the name that is handed out as the `k`-th, counted from 0:
/// one walk through the ordinals that leaves out the reserved names and
/// never turns back.
pub open spec fn ordinal_at(k: nat) -> nat
    decreases k,
{
    if k == 0 {
        free_from(0)
    } else {
        free_from(ordinal_at((k - 1) as nat) + 1)
    }
}

/// The name that is handed out as the `k`-th, counted from 0.
pub open spec fn candidate(k: nat) -> Seq<char> {
    name_of(ordinal_at(k))
}

/// A reserved name has an ordinal below that of the first long name.
pub proof fn lemma_reserved_is_short(ordinal: nat)
    requires
        is_reserved(name_of(ordinal)),
    ensures
        ordinal < LONG_NAMES,
{
    lemma_reserved_shape(name_of(ordinal));
    if ordinal >= LONG_NAMES {
        assert(first_of_len(5) == LONG_NAMES) by {
            reveal_with_fuel(first_of_len, 6);
        }
        assert(first_of_len(6) > LONG_NAMES) by {
            reveal_with_fuel(first_of_len, 7);
        }
        lemma_name_len(LONG_NAMES as nat, 5);
        lemma_name_len_monotonic(LONG_NAMES as nat, ordinal);
    }
}

/// `free_from(start)` is the least ordinal from `start` on whose name is not
/// reserved.
pub proof fn lemma_free_from(start: nat)
    ensures
        start <= free_from(start),
        !is_reserved(name_of(free_from(start))),
        forall|j: nat| start <= j < free_from(start) ==> is_reserved(#[trigger] name_of(j)),
        free_from(start) <= start || free_from(start) <= LONG_NAMES,
    decreases LONG_NAMES - start,
{
    if is_reserved(name_of(start)) {
        lemma_reserved_is_short(start);
        lemma_free_from(start + 1);
    }
}

/// The walk never turns back: a later candidate has a greater ordinal.
pub proof fn lemma_ordinal_at_increases(a: nat, b: nat)
    requires
        a < b,
    ensures
        ordinal_at(a) < ordinal_at(b),
    decreases b,
{
    lemma_free_from(ordinal_at((b - 1) as nat) + 1);
    if a < b - 1 {
        lemma_ordinal_at_increases(a, (b - 1) as nat);
    }
}

/// The walk leaves out fewer ordinals than there are short names.
pub proof fn lemma_ordinal_at_bound(k: nat)
    ensures
        ordinal_at(k) <= k + LONG_NAMES,
    decreases k,
{
    if k == 0 {
        lemma_free_from(0);
    } else {
        lemma_ordinal_at_bound((k - 1) as nat);
        lemma_free_from(ordinal_at((k - 1) as nat) + 1);
    }
}

/// No candidate is a reserved word.
pub proof fn lemma_candidate_not_reserved(k: nat)
    ensures
        !is_reserved(candidate(k)),
{
    if k == 0 {
        lemma_free_from(0);
    } else {
        lemma_free_from(ordinal_at((k - 1) as nat) + 1);
    }
}

/// Only reserved names are left out: an ordinal that lies before the first
/// candidate, or between two candidates that follow one another, has a
/// reserved name.
pub proof fn lemma_candidates_skip_only_reserved(k: nat, ordinal: nat)
    requires
        ordinal < ordinal_at(k),
        k > 0 ==> ordinal_at((k - 1) as nat) < ordinal,
    ensures
        is_reserved(name_of(ordinal)),
{
    if k == 0 {
        lemma_free_from(0);
    } else {
        lemma_free_from(ordinal_at((k - 1) as nat) + 1);
    }
}

/// Hands out the next name: the name of the first ordinal, from `*ordinal`
/// on, that is not reserved. Afterwards `*ordinal` is the ordinal behind it.
pub fn next_name(ordinal: &mut u128) -> (name: String)
    requires
        *old(ordinal) < u128::MAX - LONG_NAMES,
    ensures
        name@ == name_of(free_from(*old(ordinal) as nat)),
        *final(ordinal) == free_from(*old(ordinal) as nat) + 1,
{
    proof {
        lemma_free_from(*old(ordinal) as nat);
    }
    loop
        invariant
            *old(ordinal) <= *ordinal < u128::MAX,
            *ordinal <= *old(ordinal) || *ordinal <= LONG_NAMES,
            free_from(*ordinal as nat) == free_from(*old(ordinal) as nat),
        decreases LONG_NAMES + 1 - *ordinal,
    {
        let name = base54(*ordinal);
        let reserved = is_keyword(name.as_str());
        proof {
            if reserved {
                lemma_reserved_is_short(*ordinal as nat);
            }
        }
        *ordinal += 1;
        if !reserved {
            return name;
        }
    }
}

} // verus!
