//! Generated identifiers, enumerated from the shortest on.
//!
//! Every identifier over the alphabet has exactly one ordinal. The ordinals
//! run through the identifiers of one character, then through those of two,
//! and so on; among identifiers of one length they follow the order of the
//! alphabet, the first character weighing most.

use vstd::prelude::*;

verus! {

/// How many symbols of the alphabet may start an identifier.
pub const LEADING: usize = 54;

/// How many symbols of the alphabet may continue an identifier.
pub const CONTINUING: usize = 64;

/// The symbols an identifier is made of. The first 54 may stand anywhere;
/// the ten digits that follow may not stand first.
pub const ALPHABET: [char; 64] = [
    'a', 'b', 'c', 'd', 'e', 'f', 'g', 'h', 'i', 'j', 'k', 'l', 'm',
    'n', 'o', 'p', 'q', 'r', 's', 't', 'u', 'v', 'w', 'x', 'y', 'z',
    'A', 'B', 'C', 'D', 'E', 'F', 'G', 'H', 'I', 'J', 'K', 'L', 'M',
    'N', 'O', 'P', 'Q', 'R', 'S', 'T', 'U', 'V', 'W', 'X', 'Y', 'Z',
    '$', '_',
    '0', '1', '2', '3', '4', '5', '6', '7', '8', '9',
];

/// `String::push` of the standard library: the character is appended and
/// nothing else changes.
pub assume_specification[ String::push ](s: &mut String, ch: char)
    ensures
        final(s)@ == old(s)@.push(ch),
;

/// The symbol at place `i` of the alphabet.
pub open spec fn symbol(i: int) -> char {
    ALPHABET@[i]
}

/// The place of `c` in the alphabet, or -1 for a character outside it.
pub open spec fn position(c: char) -> int {
    if 'a' <= c <= 'z' {
        c as int - 'a' as int
    } else if 'A' <= c <= 'Z' {
        26 + (c as int - 'A' as int)
    } else if c == '$' {
        52
    } else if c == '_' {
        53
    } else if '0' <= c <= '9' {
        54 + (c as int - '0' as int)
    } else {
        -1
    }
}

/// The grammar of generated names: a leading symbol, then any number of
/// continuing symbols.
pub open spec fn is_identifier(name: Seq<char>) -> bool {
    &&& name.len() >= 1
    &&& 0 <= position(name[0]) < LEADING
    &&& forall|i: int| 1 <= i < name.len() ==> 0 <= #[trigger] position(name[i]) < CONTINUING
}

/// The identifier with ordinal `n`.
pub open spec fn name_of(n: nat) -> Seq<char>
    decreases n,
{
    if n < LEADING {
        seq![symbol(n as int)]
    } else {
        let rest = n - LEADING;
        let base = CONTINUING as int;
        name_of((rest / base) as nat).push(symbol(rest % base))
    }
}

/// The ordinal of an identifier: the inverse of [`name_of`].
pub open spec fn ordinal_of(name: Seq<char>) -> nat
    decreases name.len(),
{
    if name.len() <= 1 {
        position(name[0]) as nat
    } else {
        (LEADING + CONTINUING * ordinal_of(name.drop_last()) + position(name.last())) as nat
    }
}

/// The ordinal of the first identifier that has `len` characters.
pub open spec fn first_of_len(len: nat) -> nat
    decreases len,
{
    if len <= 1 {
        0
    } else {
        (LEADING + CONTINUING * first_of_len((len - 1) as nat)) as nat
    }
}

/// Whether `a` comes before `b` in the order of the alphabet, for two names
/// of one length: at the first place where they differ, `a` has the earlier
/// symbol.
pub open spec fn comes_before(a: Seq<char>, b: Seq<char>) -> bool {
    exists|k: int|
        0 <= k < a.len() && k < b.len() && a.subrange(0, k) == b.subrange(0, k) && position(#[trigger] a[k])
            < position(b[k])
}

/// Each symbol stands at its own place: no symbol occurs twice in the alphabet.
pub proof fn lemma_position_of_symbol(i: int)
    requires
        0 <= i < 64,
    ensures
        position(symbol(i)) == i,
{
}

/// A character that has a place in the alphabet is the symbol at that place.
pub proof fn lemma_symbol_of_position(c: char)
    requires
        0 <= position(c) < 64,
    ensures
        symbol(position(c)) == c,
{
}

/// Every generated name is an identifier.
pub proof fn lemma_name_is_identifier(n: nat)
    ensures
        is_identifier(name_of(n)),
    decreases n,
{
    if n < 54 {
        lemma_position_of_symbol(n as int);
    } else {
        let q = ((n - 54) / 64) as nat;
        let r = (n - 54) % 64;
        lemma_name_is_identifier(q);
        lemma_position_of_symbol(r);
        let name = name_of(n);
        assert(name[0] == name_of(q)[0]);
        assert forall|i: int| 1 <= i < name.len() implies 0 <= #[trigger] position(name[i]) < 64 by {
            if i < name_of(q).len() {
                assert(name[i] == name_of(q)[i]);
            }
        }
    }
}

/// A name gives back its ordinal, so two ordinals never share a name.
pub proof fn lemma_ordinal_of_name(n: nat)
    ensures
        ordinal_of(name_of(n)) == n,
    decreases n,
{
    if n < 54 {
        lemma_position_of_symbol(n as int);
    } else {
        let q = ((n - 54) / 64) as nat;
        let r = (n - 54) % 64;
        lemma_ordinal_of_name(q);
        lemma_position_of_symbol(r);
        assert(name_of(n).drop_last() == name_of(q));
        assert(name_of(n).last() == symbol(r));
    }
}

/// Every identifier is generated: it is the name of its ordinal.
pub proof fn lemma_name_of_ordinal(name: Seq<char>)
    requires
        is_identifier(name),
    ensures
        name_of(ordinal_of(name)) == name,
    decreases name.len(),
{
    if name.len() <= 1 {
        lemma_symbol_of_position(name[0]);
        assert(name == seq![name[0]]);
    } else {
        let front = name.drop_last();
        assert(front[0] == name[0]);
        assert forall|i: int| 1 <= i < front.len() implies 0 <= #[trigger] position(front[i]) < 64 by {
            assert(front[i] == name[i]);
        }
        lemma_name_of_ordinal(front);
        let p = position(name.last());
        let n = ordinal_of(name);
        assert(0 <= p < 64);
        assert((n - 54) / 64 == ordinal_of(front) && (n - 54) % 64 == p) by {
            assert(n - 54 == 64 * ordinal_of(front) + p);
        }
        lemma_symbol_of_position(name.last());
        assert(name == front.push(name.last()));
    }
}

/// Two different ordinals have different names.
pub proof fn lemma_name_injective(a: nat, b: nat)
    requires
        name_of(a) == name_of(b),
    ensures
        a == b,
{
    lemma_ordinal_of_name(a);
    lemma_ordinal_of_name(b);
}

/// Names never get shorter as the ordinal grows.
pub proof fn lemma_name_len_monotonic(a: nat, b: nat)
    requires
        a <= b,
    ensures
        1 <= name_of(a).len() <= name_of(b).len(),
    decreases b,
{
    if b < 54 {
    } else if a < 54 {
        lemma_name_len_monotonic(0, ((b - 54) / 64) as nat);
    } else {
        lemma_name_len_monotonic(((a - 54) / 64) as nat, ((b - 54) / 64) as nat);
    }
}

/// The names of `len` characters are those of the ordinals from
/// `first_of_len(len)` up to, but not including, `first_of_len(len + 1)`.
pub proof fn lemma_name_len(n: nat, len: nat)
    requires
        len >= 1,
    ensures
        name_of(n).len() == len <==> first_of_len(len) <= n < first_of_len(len + 1),
    decreases n,
{
    if n < 54 {
        if len > 1 {
            assert(first_of_len(len) >= 54);
        }
    } else {
        let q = ((n - 54) / 64) as nat;
        if len == 1 {
            lemma_name_len_monotonic(0, q);
        } else {
            lemma_name_len(q, (len - 1) as nat);
            assert(first_of_len(len) == 54 + 64 * first_of_len((len - 1) as nat));
            assert(first_of_len(len + 1) == 54 + 64 * first_of_len(len));
        }
    }
}

/// Among names of one length, the smaller ordinal has the name that comes
/// first in the order of the alphabet.
pub proof fn lemma_name_order(a: nat, b: nat)
    requires
        a < b,
        name_of(a).len() == name_of(b).len(),
    ensures
        comes_before(name_of(a), name_of(b)),
    decreases b,
{
    let x = name_of(a);
    let y = name_of(b);
    if b < 54 {
        lemma_position_of_symbol(a as int);
        lemma_position_of_symbol(b as int);
        assert(x.subrange(0, 0) == y.subrange(0, 0));
        assert(position(x[0]) < position(y[0]));
    } else if a < 54 {
        lemma_name_len_monotonic(0, ((b - 54) / 64) as nat);
    } else {
        let qa = ((a - 54) / 64) as nat;
        let qb = ((b - 54) / 64) as nat;
        let ra = (a - 54) % 64;
        let rb = (b - 54) % 64;
        let last = x.len() - 1;
        if qa == qb {
            lemma_position_of_symbol(ra);
            lemma_position_of_symbol(rb);
            assert(x.subrange(0, last) == y.subrange(0, last));
            assert(position(x[last]) < position(y[last]));
        } else {
            lemma_name_order(qa, qb);
            let k = choose|k: int|
                0 <= k < name_of(qa).len() && k < name_of(qb).len() && name_of(qa).subrange(0, k) == name_of(
                    qb,
                ).subrange(0, k) && position(#[trigger] name_of(qa)[k]) < position(name_of(qb)[k]);
            assert(x.subrange(0, k) == name_of(qa).subrange(0, k));
            assert(y.subrange(0, k) == name_of(qb).subrange(0, k));
            assert(x[k] == name_of(qa)[k] && y[k] == name_of(qb)[k]);
            assert(position(x[k]) < position(y[k]));
        }
    }
}

/// The identifier with ordinal `n`: the `n`-th shortest one.
pub fn base54(n: u128) -> (name: String)
    ensures
        name@ == name_of(n as nat),
{
    // The characters after the first, the last of them first.
    let mut tail: Vec<char> = Vec::new();
    let mut rest: u128 = n;
    while rest >= LEADING as u128
        invariant
            name_of(n as nat) == name_of(rest as nat) + Seq::new(
                tail@.len(),
                |k: int| tail@[tail@.len() - 1 - k],
            ),
        decreases rest,
    {
        let r: u128 = rest - LEADING as u128;
        let ghost before = tail@;
        tail.push(ALPHABET[(r % CONTINUING as u128) as usize]);
        proof {
            let c = symbol((r % 64) as int);
            let front = name_of((r / 64) as nat);
            assert(name_of(rest as nat) == front.push(c));
            assert(front.push(c) + Seq::new(before.len(), |k: int| before[before.len() - 1 - k]) =~= front
                + Seq::new(tail@.len(), |k: int| tail@[tail@.len() - 1 - k]));
        }
        rest = r / CONTINUING as u128;
    }
    let mut name = String::new();
    name.push(ALPHABET[rest as usize]);
    let mut i: usize = tail.len();
    while i > 0
        invariant
            i <= tail@.len(),
            name@ == name_of(rest as nat) + Seq::new(
                (tail@.len() - i) as nat,
                |k: int| tail@[tail@.len() - 1 - k],
            ),
        decreases i,
    {
        i -= 1;
        name.push(tail[i]);
    }
    name
}

} // verus!
