//! A player leaves the table with their chips.

use vstd::prelude::*;
use crate::error::HiddenHandError;
use crate::state::player::PlayerSeat;
use crate::state::seat_mask::{mask_remove, mask_unit};
use crate::state::table::{Table, TableStatus};

verus! {

/// Why a player cannot leave, if they cannot: a hand is in progress, or
/// the seat is none of the table.
pub open spec fn rejection(table: Table, seat: PlayerSeat) -> Option<HiddenHandError> {
    if table.status == TableStatus::Playing {
        Some(HiddenHandError::CannotLeaveDuringHand)
    } else if seat.seat_index >= table.max_players {
        Some(HiddenHandError::InvalidSeatIndex)
    } else {
        None
    }
}

/// Vacates the seat of a player who leaves and returns the chips that are
/// to be paid out to them. A rejected request changes nothing.
pub fn handler(table: &mut Table, player_seat: &PlayerSeat) -> (r: Result<u64, HiddenHandError>)
    requires
        old(table).wf(),
    ensures
        match r {
            Ok(chips_to_return) => {
                &&& rejection(*old(table), *player_seat) is None
                &&& chips_to_return == player_seat.chips
                &&& *final(table) == (Table {
                    occupied_seats: mask_remove(old(table).occupied_seats, player_seat.seat_index),
                    current_players: if old(table).current_players > 0 {
                        (old(table).current_players - 1) as u8
                    } else {
                        0
                    },
                    ..*old(table)
                })
                &&& !final(table).is_occupied(player_seat.seat_index)
                &&& old(table).is_occupied(player_seat.seat_index) ==> final(table).current_players
                    == old(table).current_players - 1
            },
            Err(e) => rejection(*old(table), *player_seat) == Some(e) && *final(table) == *old(
                table,
            ),
        },
{
    if table.status == TableStatus::Playing {
        return Err(HiddenHandError::CannotLeaveDuringHand);
    }
    if player_seat.seat_index >= table.max_players {
        return Err(HiddenHandError::InvalidSeatIndex);
    }
    let chips_to_return = player_seat.chips;
    table.vacate_seat(player_seat.seat_index);
    proof {
        crate::state::seat_mask::lemma_mask_empty(old(table).occupied_seats);
    }
    Ok(chips_to_return)
}

} // verus!
