//! The deck of a hand as the card supply delivers it.

use vstd::prelude::*;
use crate::constants::DECK_SIZE;

pub mod card_utils;

verus! {

/// The deck of one hand. Each entry stands for one card; the five
/// community cards come first.
#[derive(Clone, Copy, Debug)]
pub struct DeckState {
    /// Hand the deck belongs to.
    pub hand: [u8; 32],
    /// The shuffled cards, one entry each; the low byte of a plain entry is
    /// the card value 0 to 51.
    pub cards: [u128; 52],
    /// Index of the next card to deal.
    pub deal_index: u8,
    /// Whether the deck has been shuffled.
    pub is_shuffled: bool,
    /// Seed that the shuffle was made from.
    pub vrf_seed: [u8; 32],
    /// Whether the seed has been received.
    pub seed_received: bool,
    /// Discriminating byte of the record's storage address.
    pub bump: u8,
}

/// The low byte of a deck entry.
pub open spec fn low_byte(entry: u128) -> u8 {
    (entry & 0xFF) as u8
}

/// The low byte of an entry fits in a byte.
proof fn lemma_low_byte_fits(entry: u128)
    by (bit_vector)
    ensures
        entry & 0xFF <= 255,
{
}

impl DeckState {
    /// Stored size of a deck record in bytes.
    pub const SIZE: usize = 8 + 32 + 16 * 52 + 1 + 1 + 32 + 1 + 1;

    /// The community card at board position `i`.
    pub open spec fn board_card(&self, i: int) -> u8 {
        low_byte(self.cards@[i])
    }

    /// Deals the next card and returns its entry; `None` once all 52 have
    /// been dealt.
    pub fn deal_card(&mut self) -> (r: Option<u128>)
        ensures
            old(self).deal_index < DECK_SIZE ==> r == Some(
                old(self).cards@[old(self).deal_index as int],
            ) && *final(self) == (DeckState {
                deal_index: (old(self).deal_index + 1) as u8,
                ..*old(self)
            }),
            old(self).deal_index >= DECK_SIZE ==> r is None && *final(self) == *old(self),
    {
        if (self.deal_index as usize) < DECK_SIZE {
            let card = self.cards[self.deal_index as usize];
            self.deal_index += 1;
            Some(card)
        } else {
            None
        }
    }

    /// Number of cards dealt.
    pub fn cards_dealt(&self) -> (n: u8)
        ensures
            n == self.deal_index,
    {
        self.deal_index
    }

    /// Number of cards remaining, zero once 52 or more have been dealt.
    pub fn cards_remaining(&self) -> (n: u8)
        ensures
            n == if self.deal_index <= 52 {
                52 - self.deal_index
            } else {
                0
            },
    {
        52u8.saturating_sub(self.deal_index)
    }

    /// The community card at board position `i`, 0 to 4.
    pub fn community_card(&self, i: usize) -> (c: u8)
        requires
            i < 5,
        ensures
            c == self.board_card(i as int),
    {
        let entry = self.cards[i];
        proof {
            lemma_low_byte_fits(entry);
        }
        (entry & 0xFF) as u8
    }
}

} // verus!
