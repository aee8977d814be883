//! The shuffle of the deck from a random seed: a Fisher-Yates shuffle
//! driven by a linear congruential generator.

use vstd::prelude::*;
use vstd::bytes::{spec_u64_from_le_bytes, u64_from_le_bytes};
use vstd::slice::slice_subrange;

verus! {

/// Multiplier of the generator that drives the shuffle from a random seed.
pub const SEED_MULTIPLIER: u64 = 6364136223846793005;

/// Increment of the generator that drives the shuffle from a random seed.
pub const SEED_INCREMENT: u64 = 1442695040888963407;

/// Multiplier of the generator that drives the shuffle from a counter.
pub const SLOT_MULTIPLIER: u64 = 1103515245;

/// Increment of the generator that drives the shuffle from a counter.
pub const SLOT_INCREMENT: u64 = 12345;

/// The card is at one of the 52 positions.
pub open spec fn holds_card(deck: Seq<u8>, card: u8) -> bool {
    exists|k: int| 0 <= k < 52 && #[trigger] deck[k] == card
}

/// A deck: 52 cards, each a value below 52, no value twice and every value
/// once.
pub open spec fn is_deck(deck: Seq<u8>) -> bool {
    &&& deck.len() == 52
    &&& forall|k: int| 0 <= k < 52 ==> #[trigger] deck[k] < 52
    &&& forall|a: int, b: int| 0 <= a < b < 52 ==> #[trigger] deck[a] != #[trigger] deck[b]
    &&& forall|card: u8| card < 52 ==> #[trigger] holds_card(deck, card)
}

/// The deck in order: card `k` at position `k`.
pub open spec fn sorted_deck() -> Seq<u8> {
    Seq::new(52, |k: int| k as u8)
}

/// The deck with the cards at positions `i` and `j` exchanged.
pub open spec fn swapped(deck: Seq<u8>, i: int, j: int) -> Seq<u8> {
    deck.update(i, deck[j]).update(j, deck[i])
}

/// The eight bytes of `randomness` from `offset` on as a number, least
/// significant byte first.
pub open spec fn seed_word(randomness: Seq<u8>, offset: int) -> u64 {
    spec_u64_from_le_bytes(randomness.subrange(offset, offset + 8))
}

/// Position `i` mixes another word of the randomness into the seed: every
/// fourth position below 28, as long as the word lies within the 32 bytes.
pub open spec fn mixes_at(i: int) -> bool {
    i % 4 == 0 && i < 28 && (i / 4) * 8 + 8 <= 32
}

/// The seed as it is used at position `i`: at the positions that mix, the
/// word of the randomness at offset `(i / 4) * 8` is folded in.
pub open spec fn mixed_seed(randomness: Option<Seq<u8>>, seed: u64, i: int) -> u64 {
    match randomness {
        Some(bytes) => if mixes_at(i) {
            seed ^ seed_word(bytes, (i / 4) * 8)
        } else {
            seed
        },
        None => seed,
    }
}

/// One step of the generator.
pub open spec fn next_seed(seed: u64, multiplier: u64, increment: u64) -> u64 {
    seed.wrapping_mul(multiplier).wrapping_add(increment)
}

/// Deck and seed once the positions 51 down to `i` have been shuffled:
/// from the top position down, each position takes a step of the
/// generator and exchanges its card with the one at the position that the
/// new seed picks among the positions up to its own.
pub open spec fn shuffle_from(
    randomness: Option<Seq<u8>>,
    start: u64,
    multiplier: u64,
    increment: u64,
    i: int,
) -> (Seq<u8>, u64)
    decreases 52 - i,
{
    if i >= 52 || i < 1 {
        (sorted_deck(), start)
    } else {
        let (deck, seed) = shuffle_from(randomness, start, multiplier, increment, i + 1);
        let stepped = next_seed(mixed_seed(randomness, seed, i), multiplier, increment);
        (swapped(deck, i, (stepped % ((i + 1) as u64)) as int), stepped)
    }
}

/// The deck shuffled from 32 random bytes.
pub open spec fn shuffled_deck(randomness: Seq<u8>) -> Seq<u8> {
    shuffle_from(Some(randomness), seed_word(randomness, 0), SEED_MULTIPLIER, SEED_INCREMENT, 1).0
}

/// The deck shuffled from a counter.
pub open spec fn shuffled_deck_from_slot(slot: u64) -> Seq<u8> {
    shuffle_from(None, slot, SLOT_MULTIPLIER, SLOT_INCREMENT, 1).0
}

/// Exchanging two cards of a deck leaves a deck.
pub proof fn lemma_swap_keeps_deck(deck: Seq<u8>, i: int, j: int)
    requires
        is_deck(deck),
        0 <= i < 52,
        0 <= j < 52,
    ensures
        is_deck(swapped(deck, i, j)),
{
    let after = swapped(deck, i, j);
    assert forall|card: u8| card < 52 implies #[trigger] holds_card(after, card) by {
        assert(holds_card(deck, card));
        let k = choose|k: int| 0 <= k < 52 && #[trigger] deck[k] == card;
        if k == i {
            assert(after[j] == card);
        } else if k == j {
            assert(after[i] == card);
        } else {
            assert(after[k] == card);
        }
    }
    assert forall|a: int, b: int| 0 <= a < b < 52 implies #[trigger] after[a]
        != #[trigger] after[b] by {
        let from_a = if a == i {
            j
        } else if a == j {
            i
        } else {
            a
        };
        let from_b = if b == i {
            j
        } else if b == j {
            i
        } else {
            b
        };
        assert(after[a] == deck[from_a] && after[b] == deck[from_b]);
        if from_a < from_b {
            assert(deck[from_a] != deck[from_b]);
        } else {
            assert(deck[from_b] != deck[from_a]);
        }
    }
}

/// Whatever the seed, the shuffle yields a deck: no card is lost and none
/// occurs twice.
pub proof fn lemma_shuffle_yields_deck(
    randomness: Option<Seq<u8>>,
    start: u64,
    multiplier: u64,
    increment: u64,
    i: int,
)
    requires
        1 <= i <= 52,
    ensures
        is_deck(shuffle_from(randomness, start, multiplier, increment, i).0),
    decreases 52 - i,
{
    if i >= 52 {
        let deck = sorted_deck();
        assert forall|card: u8| card < 52 implies #[trigger] holds_card(deck, card) by {
            assert(deck[card as int] == card);
        }
    } else {
        lemma_shuffle_yields_deck(randomness, start, multiplier, increment, i + 1);
        let (deck, seed) = shuffle_from(randomness, start, multiplier, increment, i + 1);
        let stepped = next_seed(mixed_seed(randomness, seed, i), multiplier, increment);
        lemma_swap_keeps_deck(deck, i, (stepped % ((i + 1) as u64)) as int);
    }
}

/// Shuffles a sorted deck with the generator, from the top position down.
fn shuffle_with(randomness: Option<&[u8; 32]>, start: u64, multiplier: u64, increment: u64) -> (deck:
    [u8; 52])
    ensures
        deck@ == shuffle_from(
            match randomness {
                Some(bytes) => Some(bytes@),
                None => None,
            },
            start,
            multiplier,
            increment,
            1,
        ).0,
        is_deck(deck@),
{
    let ghost entropy: Option<Seq<u8>> = match randomness {
        Some(bytes) => Some(bytes@),
        None => None,
    };
    let mut deck: [u8; 52] = [0u8; 52];
    let mut k: usize = 0;
    while k < 52
        invariant
            k <= 52,
            forall|p: int| 0 <= p < k ==> deck@[p] == p as u8,
        decreases 52 - k,
    {
        deck[k] = k as u8;
        k += 1;
    }
    assert(deck@ =~= sorted_deck());
    let mut seed = start;
    let mut i: usize = 51;
    while i >= 1
        invariant
            0 <= i <= 51,
            entropy == (match randomness {
                Some(bytes) => Some(bytes@),
                None => None::<Seq<u8>>,
            }),
            (deck@, seed) == shuffle_from(entropy, start, multiplier, increment, i + 1),
        decreases i,
    {
        match randomness {
            Some(bytes) => {
                // Fold another word of the randomness in now and then.
                if i % 4 == 0 && i < 28 {
                    let offset = (i / 4) * 8;
                    if offset + 8 <= 32 {
                        let word = u64_from_le_bytes(
                            slice_subrange(bytes.as_slice(), offset, offset + 8),
                        );
                        seed = seed ^ word;
                    }
                }
            },
            None => {},
        }
        seed = seed.wrapping_mul(multiplier).wrapping_add(increment);
        let j = (seed % (i as u64 + 1)) as usize;
        let moved = deck[i];
        deck[i] = deck[j];
        deck[j] = moved;
        assert(deck@ =~= shuffle_from(entropy, start, multiplier, increment, i as int).0);
        i -= 1;
    }
    proof {
        lemma_shuffle_yields_deck(entropy, start, multiplier, increment, 1);
    }
    deck
}

/// Shuffles the deck from 32 random bytes. The result is a deck: every
/// card 0 to 51 exactly once.
pub fn shuffle_deck(randomness: &[u8; 32]) -> (deck: [u8; 52])
    ensures
        deck@ == shuffled_deck(randomness@),
        is_deck(deck@),
{
    let start = u64_from_le_bytes(slice_subrange(randomness.as_slice(), 0, 8));
    shuffle_with(Some(randomness), start, SEED_MULTIPLIER, SEED_INCREMENT)
}

/// Shuffles the deck from a counter. The result is a deck: every card 0 to
/// 51 exactly once.
pub fn shuffle_deck_from_slot(slot: u64) -> (deck: [u8; 52])
    ensures
        deck@ == shuffled_deck_from_slot(slot),
        is_deck(deck@),
{
    shuffle_with(None, slot, SLOT_MULTIPLIER, SLOT_INCREMENT)
}

} // verus!
