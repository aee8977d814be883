//! The completion record of a hand, for display and history.

use vstd::prelude::*;

verus! {

/// One player's result in a hand.
#[derive(Clone, Copy, Debug)]
pub struct PlayerHandResult {
    /// Identity of the player.
    pub player: [u8; 32],
    /// Seat index, 0 to 5.
    pub seat_index: u8,
    /// First hole card, 255 where not shown.
    pub hole_card_1: u8,
    /// Second hole card, 255 where not shown.
    pub hole_card_2: u8,
    /// Hand rank, 0 for a high card up to 9 for a royal flush; 255 where
    /// the hand was not evaluated.
    pub hand_rank: u8,
    /// Chips won from the pot in this hand.
    pub chips_won: u64,
    /// Chips put into the pot in this hand.
    pub chips_bet: u64,
    /// Whether the player folded.
    pub folded: bool,
    /// Whether the player was all-in.
    pub all_in: bool,
}

impl Default for PlayerHandResult {
    fn default() -> (r: Self)
        ensures
            r.is_empty(),
    {
        PlayerHandResult {
            player: [0u8; 32],
            seat_index: 0,
            hole_card_1: 0,
            hole_card_2: 0,
            hand_rank: 0,
            chips_won: 0,
            chips_bet: 0,
            folded: false,
            all_in: false,
        }
    }
}

impl PlayerHandResult {
    /// Every field of the result is zero.
    pub open spec fn is_empty(&self) -> bool {
        &&& forall|i: int| 0 <= i < 32 ==> self.player@[i] == 0
        &&& self.seat_index == 0
        &&& self.hole_card_1 == 0
        &&& self.hole_card_2 == 0
        &&& self.hand_rank == 0
        &&& self.chips_won == 0
        &&& self.chips_bet == 0
        &&& !self.folded
        &&& !self.all_in
    }
}

/// Record of a completed hand, with all that is needed to reconstruct it.
#[derive(Clone, Copy, Debug)]
pub struct HandCompleted {
    /// Table identifier.
    pub table_id: [u8; 32],
    /// Number of the hand at its table.
    pub hand_number: u64,
    /// Time at which the hand completed, in seconds.
    pub timestamp: i64,
    /// Community cards, 255 where not dealt.
    pub community_cards: [u8; 5],
    /// Total pot that was distributed among the winners.
    pub total_pot: u64,
    /// Number of players in the record.
    pub player_count: u8,
    /// Results of up to six players; entries from `results_count` on are
    /// zero.
    pub results: [PlayerHandResult; 6],
    /// How many results are valid.
    pub results_count: u8,
}

} // verus!
