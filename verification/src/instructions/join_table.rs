//! A player takes a seat.

use vstd::prelude::*;
use crate::constants::CARD_NOT_REVEALED;
use crate::error::HiddenHandError;
use crate::state::player::{PlayerSeat, PlayerStatus};
use crate::state::seat_mask::{lemma_mask_add, mask_add};
use crate::state::table::{Table, TableStatus};

verus! {

/// Why a player cannot take the seat, if they cannot. The checks are made
/// in this order: the table waits, the seat is one of the table, it is
/// vacant, the table is not full, and the buy-in is within the limits of
/// the table.
pub open spec fn rejection(table: Table, seat_index: u8, buy_in: u64) -> Option<HiddenHandError> {
    if table.status != TableStatus::Waiting {
        Some(HiddenHandError::TableNotWaiting)
    } else if seat_index >= table.max_players {
        Some(HiddenHandError::InvalidSeatIndex)
    } else if table.is_occupied(seat_index) {
        Some(HiddenHandError::SeatOccupied)
    } else if table.current_players >= table.max_players {
        Some(HiddenHandError::TableFull)
    } else if buy_in < table.min_buy_in || buy_in > table.max_buy_in {
        Some(HiddenHandError::InvalidBuyIn)
    } else {
        None
    }
}

/// Seats a player with a buy-in: the seat is occupied, and the player sits
/// with the buy-in as the stack. A rejected request changes nothing.
pub fn handler(table: &mut Table, player: [u8; 32], seat_index: u8, buy_in: u64, bump: u8) -> (r:
    Result<PlayerSeat, HiddenHandError>)
    requires
        old(table).wf(),
    ensures
        match r {
            Ok(seat) => {
                &&& rejection(*old(table), seat_index, buy_in) is None
                &&& *final(table) == (Table {
                    occupied_seats: mask_add(old(table).occupied_seats, seat_index),
                    current_players: (old(table).current_players + 1) as u8,
                    ..*old(table)
                })
                &&& seat == (PlayerSeat {
                    table: old(table).table_id,
                    player,
                    seat_index,
                    chips: buy_in,
                    current_bet: 0,
                    total_bet_this_hand: 0,
                    hole_card_1: 0,
                    hole_card_2: 0,
                    revealed_card_1: CARD_NOT_REVEALED,
                    revealed_card_2: CARD_NOT_REVEALED,
                    cards_revealed: false,
                    status: PlayerStatus::Sitting,
                    has_acted: false,
                    bump,
                })
                &&& final(table).wf()
                &&& final(table).is_occupied(seat_index)
            },
            Err(e) => rejection(*old(table), seat_index, buy_in) == Some(e) && *final(table) == *old(
                table,
            ),
        },
{
    if table.status != TableStatus::Waiting {
        return Err(HiddenHandError::TableNotWaiting);
    }
    if seat_index >= table.max_players {
        return Err(HiddenHandError::InvalidSeatIndex);
    }
    if table.is_seat_occupied(seat_index) {
        return Err(HiddenHandError::SeatOccupied);
    }
    if table.current_players >= table.max_players {
        return Err(HiddenHandError::TableFull);
    }
    if buy_in < table.min_buy_in || buy_in > table.max_buy_in {
        return Err(HiddenHandError::InvalidBuyIn);
    }
    table.occupy_seat(seat_index);
    proof {
        lemma_mask_add(old(table).occupied_seats, seat_index);
    }
    Ok(
        PlayerSeat {
            table: table.table_id,
            player,
            seat_index,
            chips: buy_in,
            current_bet: 0,
            total_bet_this_hand: 0,
            hole_card_1: 0,
            hole_card_2: 0,
            revealed_card_1: CARD_NOT_REVEALED,
            revealed_card_2: CARD_NOT_REVEALED,
            cards_revealed: false,
            status: PlayerStatus::Sitting,
            has_acted: false,
            bump,
        },
    )
}

} // verus!
