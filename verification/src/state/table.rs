//! A poker table: its stakes, its seats and the dealer button.

use vstd::prelude::*;
use crate::constants::{MAX_PLAYERS, MIN_PLAYERS};
use crate::state::seat_mask::{
    mask_add, mask_below, mask_count, mask_has, mask_is_below, mask_next, mask_remove, mask_size,
    mask_test, mask_unit, mask_with, mask_without, next_in_mask,
};

verus! {

/// What a table is doing.
#[derive(Clone, Copy, PartialEq, Eq, Debug, Structural)]
pub enum TableStatus {
    /// Waiting for players to join.
    Waiting,
    /// Hand in progress.
    Playing,
    /// Table is closed.
    Closed,
}

impl Default for TableStatus {
    fn default() -> (s: Self)
        ensures
            s == TableStatus::Waiting,
    {
        TableStatus::Waiting
    }
}

/// A table.
#[derive(Clone, Copy, Debug)]
pub struct Table {
    /// Identity of the table operator.
    pub authority: [u8; 32],
    /// Unique table identifier.
    pub table_id: [u8; 32],
    /// Small blind amount.
    pub small_blind: u64,
    /// Big blind amount.
    pub big_blind: u64,
    /// Minimum buy-in amount.
    pub min_buy_in: u64,
    /// Maximum buy-in amount.
    pub max_buy_in: u64,
    /// Number of seats, 2 to 6.
    pub max_players: u8,
    /// Number of seated players.
    pub current_players: u8,
    /// Current table status.
    pub status: TableStatus,
    /// Number of the current hand; goes up with each hand.
    pub hand_number: u64,
    /// Occupied seats, one bit per seat.
    pub occupied_seats: u8,
    /// Seat of the dealer button.
    pub dealer_position: u8,
    /// Time at which the table last became ready for a hand, in seconds.
    pub last_ready_time: i64,
    /// Discriminating byte of the record's storage address.
    pub bump: u8,
}

impl Table {
    /// Stored size of a table record in bytes.
    pub const SIZE: usize = 8 + 32 + 32 + 8 + 8 + 8 + 8 + 1 + 1 + 1 + 8 + 1 + 1 + 8 + 1;

    /// Seat `seat` is occupied.
    pub open spec fn is_occupied(&self, seat: u8) -> bool {
        mask_has(self.occupied_seats, seat)
    }

    /// Validity of a table: two to six seats, only seats of the table are
    /// occupied, the player count is the number of occupied seats, and the
    /// button is at a seat of the table.
    pub open spec fn wf(&self) -> bool {
        &&& MIN_PLAYERS <= self.max_players <= MAX_PLAYERS
        &&& mask_below(self.occupied_seats, self.max_players)
        &&& self.current_players == mask_count(self.occupied_seats)
        &&& self.dealer_position < self.max_players
    }

    /// Whether the table is valid.
    pub fn is_valid(&self) -> (r: bool)
        ensures
            r == self.wf(),
    {
        MIN_PLAYERS <= self.max_players && self.max_players <= MAX_PLAYERS && mask_is_below(
            self.occupied_seats,
            self.max_players,
        ) && self.current_players == mask_size(self.occupied_seats) && self.dealer_position
            < self.max_players
    }

    /// Whether a seat is occupied.
    pub fn is_seat_occupied(&self, seat_index: u8) -> (r: bool)
        requires
            seat_index < 8,
        ensures
            r == self.is_occupied(seat_index),
    {
        mask_test(self.occupied_seats, seat_index)
    }

    /// Marks a seat as occupied and counts one more player.
    pub fn occupy_seat(&mut self, seat_index: u8)
        requires
            seat_index < 8,
            old(self).current_players < u8::MAX,
        ensures
            *final(self) == (Table {
                occupied_seats: mask_add(old(self).occupied_seats, seat_index),
                current_players: (old(self).current_players + 1) as u8,
                ..*old(self)
            }),
            forall|s: u8|
                #[trigger] final(self).is_occupied(s) == (old(self).is_occupied(s) || s
                    == seat_index),
            mask_count(final(self).occupied_seats) == mask_count(old(self).occupied_seats) + 1
                - mask_unit(old(self).occupied_seats, seat_index),
    {
        self.occupied_seats = mask_with(self.occupied_seats, seat_index);
        self.current_players += 1;
    }

    /// Marks a seat as vacant and counts one player less (never below
    /// zero).
    pub fn vacate_seat(&mut self, seat_index: u8)
        requires
            seat_index < 8,
        ensures
            *final(self) == (Table {
                occupied_seats: mask_remove(old(self).occupied_seats, seat_index),
                current_players: if old(self).current_players > 0 {
                    (old(self).current_players - 1) as u8
                } else {
                    0
                },
                ..*old(self)
            }),
            forall|s: u8|
                #[trigger] final(self).is_occupied(s) == (old(self).is_occupied(s) && s
                    != seat_index),
            mask_count(final(self).occupied_seats) == mask_count(old(self).occupied_seats)
                - mask_unit(old(self).occupied_seats, seat_index),
    {
        self.occupied_seats = mask_without(self.occupied_seats, seat_index);
        self.current_players = self.current_players.saturating_sub(1);
    }

    /// The first vacant seat, if there is one.
    pub fn find_empty_seat(&self) -> (r: Option<u8>)
        requires
            self.max_players <= 8,
        ensures
            match r {
                Some(i) => i < self.max_players && !self.is_occupied(i) && forall|j: u8|
                    j < i ==> #[trigger] self.is_occupied(j),
                None => forall|j: u8| j < self.max_players ==> #[trigger] self.is_occupied(j),
            },
    {
        let mut i: u8 = 0;
        while i < self.max_players
            invariant
                i <= self.max_players <= 8,
                forall|j: u8| j < i ==> #[trigger] self.is_occupied(j),
            decreases self.max_players - i,
        {
            if !self.is_seat_occupied(i) {
                return Some(i);
            }
            i += 1;
        }
        None
    }

    /// Moves the dealer button to the next occupied seat clockwise. With no
    /// seat occupied the button stays.
    pub fn advance_dealer(&mut self)
        requires
            0 < old(self).max_players <= 8,
            old(self).dealer_position < old(self).max_players,
        ensures
            *final(self) == (Table {
                dealer_position: match next_in_mask(
                    old(self).occupied_seats,
                    old(self).dealer_position,
                    old(self).max_players,
                ) {
                    Some(s) => s,
                    None => old(self).dealer_position,
                },
                ..*old(self)
            }),
            final(self).dealer_position < old(self).max_players,
            old(self).current_players == mask_count(old(self).occupied_seats) && old(
                self,
            ).current_players > 0 && mask_below(old(self).occupied_seats, old(self).max_players)
                ==> final(self).is_occupied(final(self).dealer_position),
    {
        proof {
            crate::state::seat_mask::lemma_mask_empty(self.occupied_seats);
        }
        match mask_next(self.occupied_seats, self.dealer_position, self.max_players) {
            Some(next) => {
                self.dealer_position = next;
            },
            None => {},
        }
    }
}

} // verus!
