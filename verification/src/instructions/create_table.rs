//! The creation of a table.

use vstd::prelude::*;
use crate::constants::{MAX_PLAYERS, MIN_PLAYERS};
use crate::error::HiddenHandError;
use crate::state::seat_mask::lemma_mask_empty;
use crate::state::table::{Table, TableStatus};

verus! {

/// Why a table cannot be created, if it cannot. The checks are made in
/// this order: the table has two to six seats, the big blind is no less
/// than the small blind, the smallest buy-in is no more than the largest,
/// and the smallest buy-in is at least ten big blinds.
pub open spec fn rejection(
    small_blind: u64,
    big_blind: u64,
    min_buy_in: u64,
    max_buy_in: u64,
    max_players: u8,
) -> Option<HiddenHandError> {
    if !(MIN_PLAYERS <= max_players <= MAX_PLAYERS) {
        Some(HiddenHandError::InvalidSeatIndex)
    } else if big_blind < small_blind {
        Some(HiddenHandError::InvalidBuyIn)
    } else if min_buy_in > max_buy_in {
        Some(HiddenHandError::InvalidBuyIn)
    } else if min_buy_in < big_blind * 10 {
        Some(HiddenHandError::InvalidBuyIn)
    } else {
        None
    }
}

/// Creates a table: it waits for players, no seat is occupied, no hand has
/// been played, and the button is at seat 0.
pub fn handler(
    authority: [u8; 32],
    table_id: [u8; 32],
    small_blind: u64,
    big_blind: u64,
    min_buy_in: u64,
    max_buy_in: u64,
    max_players: u8,
    now: i64,
    bump: u8,
) -> (r: Result<Table, HiddenHandError>)
    ensures
        match r {
            Ok(table) => {
                &&& rejection(small_blind, big_blind, min_buy_in, max_buy_in, max_players) is None
                &&& table == (Table {
                    authority,
                    table_id,
                    small_blind,
                    big_blind,
                    min_buy_in,
                    max_buy_in,
                    max_players,
                    current_players: 0,
                    status: TableStatus::Waiting,
                    hand_number: 0,
                    occupied_seats: 0,
                    dealer_position: 0,
                    last_ready_time: now,
                    bump,
                })
                &&& table.wf()
            },
            Err(e) => rejection(small_blind, big_blind, min_buy_in, max_buy_in, max_players)
                == Some(e),
        },
{
    if !(max_players >= MIN_PLAYERS && max_players <= MAX_PLAYERS) {
        return Err(HiddenHandError::InvalidSeatIndex);
    }
    if big_blind < small_blind {
        return Err(HiddenHandError::InvalidBuyIn);
    }
    if min_buy_in > max_buy_in {
        return Err(HiddenHandError::InvalidBuyIn);
    }
    // At least ten big blinds; a product beyond 64 bits is beyond any
    // buy-in.
    let enough = match big_blind.checked_mul(10) {
        Some(least) => min_buy_in >= least,
        None => false,
    };
    if !enough {
        return Err(HiddenHandError::InvalidBuyIn);
    }
    proof {
        lemma_mask_empty(0u8);
    }
    Ok(
        Table {
            authority,
            table_id,
            small_blind,
            big_blind,
            min_buy_in,
            max_buy_in,
            max_players,
            current_players: 0,
            status: TableStatus::Waiting,
            hand_number: 0,
            occupied_seats: 0,
            dealer_position: 0,
            last_ready_time: now,
            bump,
        },
    )
}

} // verus!
