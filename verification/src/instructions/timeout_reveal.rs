//! The reveal timeout: a player who does not show their cards at showdown
//! within the reveal window can be mucked by anyone and forfeits the pot.

use vstd::prelude::*;
use crate::constants::REVEAL_TIMEOUT_SECONDS;
use crate::error::HiddenHandError;
use crate::instructions::timeout_player::has_elapsed;
use crate::state::hand::{GamePhase, HandState};
use crate::state::player::{PlayerSeat, PlayerStatus};
use crate::state::seat_mask::{lemma_mask_remove, mask_remove};
use crate::state::table::{Table, TableStatus};

verus! {

/// Why a muck is rejected, if it is. The checks are made in this order:
/// the table plays, the hand is at showdown, the seat is one of the table
/// that still contests the pot, it has not shown its cards, and the reveal
/// window has passed since the last event of the hand.
pub open spec fn rejection(table: Table, hand: HandState, seat: PlayerSeat, now: i64) -> Option<
    HiddenHandError,
> {
    if table.status != TableStatus::Playing {
        Some(HiddenHandError::HandNotInProgress)
    } else if hand.phase != GamePhase::Showdown {
        Some(HiddenHandError::InvalidPhase)
    } else if seat.seat_index >= table.max_players {
        Some(HiddenHandError::InvalidSeatIndex)
    } else if !seat.contests() || !hand.is_active(seat.seat_index) {
        Some(HiddenHandError::PlayerNotActive)
    } else if seat.cards_revealed {
        Some(HiddenHandError::CardsAlreadyRevealed)
    } else if now - hand.last_action_time < REVEAL_TIMEOUT_SECONDS {
        Some(HiddenHandError::TimeoutNotReached)
    } else {
        None
    }
}

/// Mucks a player who has not shown their cards at showdown. Anyone may
/// ask for this once the reveal window has passed.
///
/// The seat is folded and leaves the active set, so one seat fewer contests
/// the pot; where exactly one is left, that seat takes the pot without an
/// evaluation. The time of the muck starts the next window.
pub fn handler(table: &Table, hand_state: &mut HandState, target_player: &mut PlayerSeat, now: i64)
    -> (r: Result<(), HiddenHandError>)
    requires
        old(hand_state).wf(table.max_players),
    ensures
        match r {
            Ok(()) => {
                &&& rejection(*table, *old(hand_state), *old(target_player), now) is None
                &&& *final(target_player) == (PlayerSeat {
                    status: PlayerStatus::Folded,
                    ..*old(target_player)
                })
                &&& *final(hand_state) == (HandState {
                    active_players: mask_remove(
                        old(hand_state).active_players,
                        old(target_player).seat_index,
                    ),
                    active_count: (old(hand_state).active_count - 1) as u8,
                    last_action_time: now,
                    ..*old(hand_state)
                })
            },
            Err(e) => {
                &&& rejection(*table, *old(hand_state), *old(target_player), now) == Some(e)
                &&& *final(hand_state) == *old(hand_state)
                &&& *final(target_player) == *old(target_player)
            },
        },
        r is Ok ==> final(hand_state).wf(table.max_players),
        r is Ok ==> forall|s: u8|
            #[trigger] final(hand_state).is_active(s) == (old(hand_state).is_active(s) && s != old(
                target_player,
            ).seat_index),
{
    if table.status != TableStatus::Playing {
        return Err(HiddenHandError::HandNotInProgress);
    }
    if hand_state.phase != GamePhase::Showdown {
        return Err(HiddenHandError::InvalidPhase);
    }
    let target_seat = target_player.seat_index;
    if target_seat >= table.max_players {
        return Err(HiddenHandError::InvalidSeatIndex);
    }
    let contests = target_player.status == PlayerStatus::Playing || target_player.status
        == PlayerStatus::AllIn;
    if !contests || !hand_state.is_player_active(target_seat) {
        return Err(HiddenHandError::PlayerNotActive);
    }
    if target_player.cards_revealed {
        return Err(HiddenHandError::CardsAlreadyRevealed);
    }
    if !has_elapsed(now, hand_state.last_action_time, REVEAL_TIMEOUT_SECONDS) {
        return Err(HiddenHandError::TimeoutNotReached);
    }
    // The player forfeits the claim to the pot.
    target_player.status = PlayerStatus::Folded;
    hand_state.fold_player(target_seat);
    hand_state.last_action_time = now;
    proof {
        lemma_mask_remove(old(hand_state).active_players, target_seat);
    }
    Ok(())
}

} // verus!
