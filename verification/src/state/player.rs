//! A seat at the table: its chip stack and its part in the current hand.

use vstd::prelude::*;
use crate::constants::CARD_NOT_REVEALED;

verus! {

/// What a seat is doing in the current hand.
#[derive(Clone, Copy, PartialEq, Eq, Debug, Structural)]
pub enum PlayerStatus {
    /// Seated but not in the current hand.
    Sitting,
    /// Active in the current hand.
    Playing,
    /// Folded this hand.
    Folded,
    /// All-in this hand.
    AllIn,
}

impl Default for PlayerStatus {
    fn default() -> (s: Self)
        ensures
            s == PlayerStatus::Sitting,
    {
        PlayerStatus::Sitting
    }
}

/// One seat and the player who holds it.
#[derive(Clone, Copy, Debug)]
pub struct PlayerSeat {
    /// Table the seat belongs to.
    pub table: [u8; 32],
    /// Identity of the player.
    pub player: [u8; 32],
    /// Seat index, 0 to max_players - 1.
    pub seat_index: u8,
    /// Chip stack at this table.
    pub chips: u64,
    /// Amount bet in the current betting round.
    pub current_bet: u64,
    /// Total amount put into the pot in the current hand.
    pub total_bet_this_hand: u64,
    /// First hole card as dealt (a handle to the hidden card).
    pub hole_card_1: u128,
    /// Second hole card as dealt.
    pub hole_card_2: u128,
    /// First hole card as shown at showdown, 255 until shown.
    pub revealed_card_1: u8,
    /// Second hole card as shown at showdown, 255 until shown.
    pub revealed_card_2: u8,
    /// Whether the hole cards have been shown.
    pub cards_revealed: bool,
    /// Current status.
    pub status: PlayerStatus,
    /// Has acted in the current betting round.
    pub has_acted: bool,
    /// Discriminating byte of the record's storage address.
    pub bump: u8,
}

impl PlayerSeat {
    /// Stored size of a seat record in bytes.
    pub const SIZE: usize = 8 + 32 + 32 + 1 + 8 + 8 + 8 + 16 + 16 + 1 + 1 + 1 + 1 + 1 + 1;

    /// A seat that is all-in has no chips left.
    pub open spec fn wf(&self) -> bool {
        self.status == PlayerStatus::AllIn ==> self.chips == 0
    }

    /// The seat still contests the pot: it plays or is all-in.
    pub open spec fn contests(&self) -> bool {
        self.status == PlayerStatus::Playing || self.status == PlayerStatus::AllIn
    }

    /// The amount that `place_bet(amount)` moves from the stack to the pot:
    /// the amount asked for, capped by the stack.
    pub open spec fn stake(&self, amount: u64) -> u64 {
        if amount <= self.chips {
            amount
        } else {
            self.chips
        }
    }

    /// Whether the seat is valid.
    pub fn is_valid(&self) -> (r: bool)
        ensures
            r == self.wf(),
    {
        self.status != PlayerStatus::AllIn || self.chips == 0
    }

    /// Resets the per-hand fields for a new hand; the seat plays.
    pub fn reset_for_new_hand(&mut self)
        ensures
            *final(self) == (PlayerSeat {
                current_bet: 0,
                total_bet_this_hand: 0,
                hole_card_1: 0,
                hole_card_2: 0,
                revealed_card_1: CARD_NOT_REVEALED,
                revealed_card_2: CARD_NOT_REVEALED,
                cards_revealed: false,
                status: PlayerStatus::Playing,
                has_acted: false,
                ..*old(self)
            }),
    {
        self.current_bet = 0;
        self.total_bet_this_hand = 0;
        self.hole_card_1 = 0;
        self.hole_card_2 = 0;
        self.revealed_card_1 = CARD_NOT_REVEALED;
        self.revealed_card_2 = CARD_NOT_REVEALED;
        self.cards_revealed = false;
        self.status = PlayerStatus::Playing;
        self.has_acted = false;
    }

    /// Resets the per-round fields for a new betting round.
    pub fn reset_for_betting_round(&mut self)
        ensures
            *final(self) == (PlayerSeat { current_bet: 0, has_acted: false, ..*old(self) }),
    {
        self.current_bet = 0;
        self.has_acted = false;
    }

    /// Places a bet and returns the amount actually bet: the amount asked
    /// for, capped by the stack. A seat whose stack reaches zero is all-in.
    /// The two bet counters saturate at the largest value.
    pub fn place_bet(&mut self, amount: u64) -> (actual_bet: u64)
        ensures
            actual_bet == old(self).stake(amount),
            *final(self) == (PlayerSeat {
                chips: (old(self).chips - actual_bet) as u64,
                current_bet: if old(self).current_bet + actual_bet > u64::MAX {
                    u64::MAX
                } else {
                    (old(self).current_bet + actual_bet) as u64
                },
                total_bet_this_hand: if old(self).total_bet_this_hand + actual_bet > u64::MAX {
                    u64::MAX
                } else {
                    (old(self).total_bet_this_hand + actual_bet) as u64
                },
                status: if old(self).chips == actual_bet {
                    PlayerStatus::AllIn
                } else {
                    old(self).status
                },
                ..*old(self)
            }),
            old(self).wf() ==> final(self).wf(),
    {
        let actual_bet = if amount <= self.chips {
            amount
        } else {
            self.chips
        };
        self.chips = self.chips - actual_bet;
        self.current_bet = self.current_bet.saturating_add(actual_bet);
        self.total_bet_this_hand = self.total_bet_this_hand.saturating_add(actual_bet);
        if self.chips == 0 {
            self.status = PlayerStatus::AllIn;
        }
        actual_bet
    }

    /// Adds chips won from a pot; the stack saturates at the largest value.
    pub fn award_chips(&mut self, amount: u64)
        ensures
            *final(self) == (PlayerSeat {
                chips: if old(self).chips + amount > u64::MAX {
                    u64::MAX
                } else {
                    (old(self).chips + amount) as u64
                },
                ..*old(self)
            }),
    {
        self.chips = self.chips.saturating_add(amount);
    }

    /// Whether the player can act: neither folded nor all-in.
    pub fn can_act(&self) -> (r: bool)
        ensures
            r == (self.status == PlayerStatus::Playing),
    {
        self.status == PlayerStatus::Playing
    }

    /// Folds the hand.
    pub fn fold(&mut self)
        ensures
            *final(self) == (PlayerSeat { status: PlayerStatus::Folded, ..*old(self) }),
    {
        self.status = PlayerStatus::Folded;
    }
}

} // verus!
