//! The canonical table: every hand once, the strongest first.

use vstd::prelude::*;
use crate::combinations::{count_below, lemma_count_gap, lemma_count_hands, next_combination};
use crate::masks::{card_count, is_hand, lemma_popcount_bound, popcount, ALL_CARDS};
use crate::order::{
    beats, hand_strength, lemma_beats_strict, lemma_order_by_strength, strength, ties,
};

verus! {

/// The number of hands: the ways to choose 5 cards out of 52.
pub const HAND_COUNT: usize = 2_598_960;

/// A ranking holds every hand, and no hand stands before one that beats it.
pub open spec fn is_ranking(table: Seq<u64>) -> bool {
    &&& forall|i: int| 0 <= i < table.len() ==> is_hand(#[trigger] table[i])
    &&& forall|hand: u64| is_hand(hand) ==> table.contains(hand)
    &&& forall|i: int, j: int|
        0 <= i < j < table.len() ==> !beats(#[trigger] table[j], #[trigger] table[i])
}

/// The canonical table is the ranking that holds every hand exactly once and,
/// of two hands of equal strength, the one with the lesser mask first.
pub open spec fn is_canonical_table(table: Seq<u64>) -> bool {
    &&& is_ranking(table)
    &&& table.len() == HAND_COUNT
    &&& table.no_duplicates()
    &&& forall|i: int, j: int|
        0 <= i < j < table.len() ==> beats(#[trigger] table[i], #[trigger] table[j]) || (ties(
            table[i],
            table[j],
        ) && table[i] < table[j])
}

/// The order that the canonical table stands in: a stronger hand comes
/// before a weaker one, and of two hands of equal strength the lesser mask
/// comes first.
pub open spec fn stands_before(hand1: u64, hand2: u64) -> bool {
    strength(hand1) > strength(hand2) || (strength(hand1) == strength(hand2) && hand1 <= hand2)
}

/// The hands of a canonical table: each hand once, and nothing else.
proof fn lemma_canonical_table_counts(table: Seq<u64>, mask: u64)
    requires
        is_canonical_table(table),
    ensures
        table.to_multiset().count(mask) == (if is_hand(mask) {
            1nat
        } else {
            0nat
        }),
{
    table.to_multiset_ensures();
    table.lemma_multiset_has_no_duplicates();
    if table.contains(mask) {
        let i = choose|i: int| 0 <= i < table.len() && table[i] == mask;
    }
}

/// There is one canonical table: two tables that are canonical are equal.
pub proof fn lemma_canonical_table_unique(table1: Seq<u64>, table2: Seq<u64>)
    requires
        is_canonical_table(table1),
        is_canonical_table(table2),
    ensures
        table1 == table2,
{
    let before = |hand1: u64, hand2: u64| stands_before(hand1, hand2);
    assert(vstd::relations::sorted_by(table1, before)) by {
        assert forall|i: int, j: int| 0 <= i < j < table1.len() implies #[trigger] before(
            table1[i],
            table1[j],
        ) by {
            lemma_order_by_strength(table1[i], table1[j]);
        }
    }
    assert(vstd::relations::sorted_by(table2, before)) by {
        assert forall|i: int, j: int| 0 <= i < j < table2.len() implies #[trigger] before(
            table2[i],
            table2[j],
        ) by {
            lemma_order_by_strength(table2[i], table2[j]);
        }
    }
    assert(vstd::relations::total_ordering(before));
    assert(table1.to_multiset() =~= table2.to_multiset()) by {
        assert forall|mask: u64|
            table1.to_multiset().count(mask) == table2.to_multiset().count(mask) by {
            lemma_canonical_table_counts(table1, mask);
            lemma_canonical_table_counts(table2, mask);
        }
    }
    vstd::seq_lib::lemma_sorted_unique(table1, table2, before);
}

/// The order of pairs of numbers: by the first number, then by the second.
pub open spec fn entry_le(left: (u64, u64), right: (u64, u64)) -> bool {
    left.0 < right.0 || (left.0 == right.0 && left.1 <= right.1)
}

/// The entry that a hand is sorted by: a number that is the less the stronger
/// the hand is, and the hand itself.
pub open spec fn entry_of(hand: u64) -> (u64, u64) {
    ((u64::MAX - strength(hand)) as u64, hand)
}

/// `slice::sort` on pairs of integers. The standard library documents that
/// it sorts the slice in ascending order, and that tuples are ordered by
/// their first elements, then by their second: afterwards the vector holds
/// the same pairs as before, each as often as before, and no pair is
/// followed by a lesser one.
#[verifier::external_body]
fn sort_entries(entries: &mut Vec<(u64, u64)>)
    ensures
        final(entries)@.to_multiset() == old(entries)@.to_multiset(),
        forall|i: int, j: int|
            0 <= i < j < final(entries)@.len() ==> entry_le(
                #[trigger] final(entries)@[i],
                #[trigger] final(entries)@[j],
            ),
{
    entries.sort();
}

/// Every hand once, in ascending order of the masks, each with the number it
/// is sorted by.
fn enumerate_hands() -> (entries: Vec<(u64, u64)>)
    ensures
        entries@.len() == HAND_COUNT,
        forall|i: int| 0 <= i < entries@.len() ==> is_hand(#[trigger] entries@[i].1),
        forall|i: int|
            0 <= i < entries@.len() ==> #[trigger] entries@[i] == entry_of(entries@[i].1),
        forall|i: int, j: int|
            0 <= i < j < entries@.len() ==> (#[trigger] entries@[i]).1 < (#[trigger] entries@[j]).1,
        forall|hand: u64| is_hand(hand) ==> entries@.contains(entry_of(hand)),
{
    let mut entries: Vec<(u64, u64)> = Vec::with_capacity(HAND_COUNT);
    let mut bits: u64 = 0b11111;
    proof {
        reveal_with_fuel(popcount, 6);
        assert forall|below: nat| 0 <= below < 0b11111 implies popcount(below) != 5 by {
            vstd::arithmetic::power2::lemma2_to64();
            lemma_popcount_bound(below, 5);
        }
        lemma_count_gap(0, 0b11111, 5);
    }
    while bits <= ALL_CARDS
        invariant
            bits != 0,
            card_count(bits) == 5,
            entries@.len() == count_below(
                if bits <= ALL_CARDS {
                    bits as nat
                } else {
                    0x10_0000_0000_0000
                },
                5,
            ),
            forall|i: int| 0 <= i < entries@.len() ==> is_hand(#[trigger] entries@[i].1),
            forall|i: int|
                0 <= i < entries@.len() ==> #[trigger] entries@[i] == entry_of(entries@[i].1),
            forall|i: int| 0 <= i < entries@.len() ==> (#[trigger] entries@[i]).1 < bits,
            forall|i: int, j: int|
                0 <= i < j < entries@.len() ==> (#[trigger] entries@[i]).1 < (
                #[trigger] entries@[j]).1,
            forall|hand: u64| is_hand(hand) && hand < bits ==> entries@.contains(entry_of(hand)),
        decreases
                if bits <= ALL_CARDS {
                    0x10_0000_0000_0000 - bits
                } else {
                    0
                },
    {
        let ghost before = entries@;
        let key = u64::MAX - hand_strength(bits);
        entries.push((key, bits));
        let next = next_combination(bits);
        proof {
            let end: nat = if next <= ALL_CARDS {
                next as nat
            } else {
                0x10_0000_0000_0000
            };
            assert forall|between: nat| bits + 1 <= between < end implies popcount(between)
                != 5 by {
                assert(card_count(between as u64) != card_count(bits));
            }
            lemma_count_gap((bits + 1) as nat, end, 5);
            assert(count_below((bits + 1) as nat, 5) == count_below(bits as nat, 5) + 1);
            assert(entries@[before.len() as int] == entry_of(bits));
            assert forall|hand: u64| is_hand(hand) && hand < next implies entries@.contains(
                entry_of(hand),
            ) by {
                if hand < bits {
                    let i = choose|i: int| 0 <= i < before.len() && before[i] == entry_of(hand);
                    assert(entries@[i] == entry_of(hand));
                }
            }
        }
        bits = next;
    }
    proof {
        lemma_count_hands();
    }
    entries
}

/// Builds the canonical table: every five-card hand exactly once, sorted
/// from the strongest to the weakest; hands of equal strength stand in
/// ascending order of their masks.
///
/// The hands are generated in ascending order of their masks, starting from
/// the five lowest cards, each from the one before by
/// [`next_combination`]. They are then sorted by their strengths, which
/// order as `compare_hands` does; the sort keeps hands of equal strength in
/// the order in which they were generated.
pub fn all_hands() -> (table: Vec<u64>)
    ensures
        is_canonical_table(table@),
{
    let mut entries = enumerate_hands();
    let ghost generated = entries@;
    sort_entries(&mut entries);
    let ghost sorted = entries@;
    proof {
        generated.to_multiset_ensures();
        sorted.to_multiset_ensures();
        generated.lemma_multiset_has_no_duplicates();
        sorted.lemma_multiset_has_no_duplicates_conv();
        assert forall|i: int| 0 <= i < sorted.len() implies is_hand(#[trigger] sorted[i].1)
            && sorted[i] == entry_of(sorted[i].1) by {
            assert(generated.to_multiset().count(sorted[i]) > 0);
        }
        assert forall|hand: u64| is_hand(hand) implies sorted.contains(entry_of(hand)) by {
            assert(sorted.to_multiset().count(entry_of(hand)) > 0);
        }
    }
    let mut table: Vec<u64> = Vec::with_capacity(entries.len());
    let mut i: usize = 0;
    while i < entries.len()
        invariant
            i <= entries.len(),
            entries@ == sorted,
            table@.len() == i,
            forall|k: int| 0 <= k < i ==> #[trigger] table@[k] == sorted[k].1,
        decreases entries.len() - i,
    {
        table.push(entries[i].1);
        i += 1;
    }
    proof {
        assert forall|hand: u64| is_hand(hand) implies table@.contains(hand) by {
            let k = choose|k: int| 0 <= k < sorted.len() && sorted[k] == entry_of(hand);
            assert(table@[k] == hand);
        }
        assert forall|a: int, b: int| 0 <= a < b < table@.len() implies beats(
            #[trigger] table@[a],
            #[trigger] table@[b],
        ) || (ties(table@[a], table@[b]) && table@[a] < table@[b]) by {
            lemma_order_by_strength(table@[a], table@[b]);
            lemma_order_by_strength(table@[b], table@[a]);
            assert(entry_le(sorted[a], sorted[b]));
            assert(sorted[a] != sorted[b]);
        }
        assert forall|a: int, b: int| 0 <= a < b < table@.len() implies !beats(
            #[trigger] table@[b],
            #[trigger] table@[a],
        ) by {
            lemma_beats_strict(table@[a], table@[b]);
        }
        assert(table@.no_duplicates()) by {
            assert forall|a: int, b: int|
                0 <= a < table@.len() && 0 <= b < table@.len() && a != b implies table@[a]
                != table@[b] by {
                lemma_beats_strict(table@[a], table@[b]);
            }
        }
    }
    table
}

} // verus!
