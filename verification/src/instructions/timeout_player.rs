//! The action timeout: once the player whose turn it is has let the action
//! window pass, anyone may force the default action for that seat.

use vstd::prelude::*;
use crate::constants::ACTION_TIMEOUT_SECONDS;
use crate::error::HiddenHandError;
use crate::instructions::player_action;
use crate::instructions::player_action::{
    hand_after_action, lemma_action_keeps_valid, lemma_actor_stays_in_step,
    lemma_action_makes_progress, remaining_steps, seat_after_action, seat_in_step, Action,
};
use crate::state::deck::DeckState;
use crate::state::hand::HandState;
use crate::state::player::{PlayerSeat, PlayerStatus};
use crate::state::table::{Table, TableStatus};

verus! {

/// Whether at least `window` seconds have passed at time `now` since the
/// time `since`.
pub fn has_elapsed(now: i64, since: i64, window: i64) -> (r: bool)
    ensures
        r == (now - since >= window),
{
    match now.checked_sub(since) {
        Some(elapsed) => elapsed >= window,
        // The difference does not fit: it is far beyond any window on the
        // side of the later time.
        None => now > since,
    }
}

/// The action that a timeout forces: a check where the seat already
/// matches the current bet, else a fold.
pub open spec fn default_action(hand: HandState, seat: PlayerSeat) -> Action {
    if seat.current_bet >= hand.current_bet {
        Action::Check
    } else {
        Action::Fold
    }
}

/// Why a timeout is rejected, if it is. The checks are made in this order:
/// the table plays, the hand is in a betting phase, the turn is on the
/// seat, the seat is active and playing, and the action window has passed
/// since the last event of the hand.
pub open spec fn rejection(table: Table, hand: HandState, seat: PlayerSeat, now: i64) -> Option<
    HiddenHandError,
> {
    if table.status != TableStatus::Playing {
        Some(HiddenHandError::HandNotInProgress)
    } else if !hand.phase.is_betting() {
        Some(HiddenHandError::InvalidPhase)
    } else if hand.action_on != seat.seat_index {
        Some(HiddenHandError::NotPlayersTurn)
    } else if !hand.is_active(seat.seat_index) {
        Some(HiddenHandError::PlayerFolded)
    } else if seat.status != PlayerStatus::Playing {
        Some(HiddenHandError::InvalidAction)
    } else if now - hand.last_action_time < ACTION_TIMEOUT_SECONDS {
        Some(HiddenHandError::ActionNotTimedOut)
    } else {
        None
    }
}

/// Liveness of a betting round. Whenever the turn is on a seat whose record
/// is in step with the hand and the action window has passed, the timeout
/// is accepted, whoever asks for it. It leaves a valid hand that is
/// strictly closer to its end, with the seat still in step. No other
/// seat record falls out of step by it, so the next seat on turn can be
/// timed out in the same way: timeouts alone bring every betting round to
/// its end.
pub proof fn lemma_stalled_turn_is_forceable(
    table: Table,
    hand: HandState,
    seat: PlayerSeat,
    deck: DeckState,
    now: i64,
)
    requires
        table.status == TableStatus::Playing,
        hand.wf(table.max_players),
        hand.phase.is_betting(),
        seat.seat_index == hand.action_on,
        seat_in_step(hand, seat),
        now - hand.last_action_time >= ACTION_TIMEOUT_SECONDS,
    ensures
        rejection(table, hand, seat, now) is None,
        player_action::rejection(table, hand, seat, default_action(hand, seat)) is None,
        hand_after_action(
            hand,
            seat,
            deck,
            table.max_players,
            default_action(hand, seat),
            now,
        ).wf(table.max_players),
        remaining_steps(
            hand_after_action(hand, seat, deck, table.max_players, default_action(hand, seat), now),
        ) < remaining_steps(hand),
        seat_in_step(
            hand_after_action(hand, seat, deck, table.max_players, default_action(hand, seat), now),
            seat_after_action(hand, seat, default_action(hand, seat)),
        ),
{
    let action = default_action(hand, seat);
    lemma_action_keeps_valid(table, hand, seat, deck, action, now);
    lemma_action_makes_progress(table, hand, seat, deck, action, now);
    lemma_actor_stays_in_step(table, hand, seat, deck, action, now);
}

/// Times out the player whose turn it is. Anyone may ask for this.
///
/// Once the action window has passed the seat checks if it has nothing to
/// call and folds otherwise, exactly as if the player had done so. The
/// request is owed success whenever the turn is on a playing seat and the
/// window has passed, and every success brings the hand closer to its end:
/// a later phase begins or one seat fewer has to act, so timeouts alone
/// always finish a betting round.
pub fn handler(
    table: &Table,
    hand_state: &mut HandState,
    deck_state: &DeckState,
    player_seat: &mut PlayerSeat,
    now: i64,
) -> (r: Result<(), HiddenHandError>)
    requires
        old(hand_state).wf(table.max_players),
    ensures
        match r {
            Ok(()) => {
                &&& rejection(*table, *old(hand_state), *old(player_seat), now) is None
                &&& *final(player_seat) == seat_after_action(
                    *old(hand_state),
                    *old(player_seat),
                    default_action(*old(hand_state), *old(player_seat)),
                )
                &&& *final(hand_state) == hand_after_action(
                    *old(hand_state),
                    *old(player_seat),
                    *deck_state,
                    table.max_players,
                    default_action(*old(hand_state), *old(player_seat)),
                    now,
                )
            },
            Err(e) => {
                &&& rejection(*table, *old(hand_state), *old(player_seat), now) == Some(e)
                &&& *final(hand_state) == *old(hand_state)
                &&& *final(player_seat) == *old(player_seat)
            },
        },
        (table.status == TableStatus::Playing && old(hand_state).phase.is_betting() && old(
            hand_state,
        ).action_on == old(player_seat).seat_index && old(player_seat).status
            == PlayerStatus::Playing && now - old(hand_state).last_action_time
            >= ACTION_TIMEOUT_SECONDS) ==> r is Ok,
        r is Ok ==> final(hand_state).wf(table.max_players),
        r is Ok && old(player_seat).wf() ==> final(player_seat).wf(),
        r is Ok ==> remaining_steps(*final(hand_state)) < remaining_steps(*old(hand_state)),
        r is Ok ==> final(hand_state).phase != old(hand_state).phase || final(hand_state).action_on
            != old(hand_state).action_on,
        r is Ok ==> forall|s: u8|
            s != old(player_seat).seat_index ==> #[trigger] final(hand_state).is_active(s) == old(
                hand_state,
            ).is_active(s),
        r is Ok ==> forall|s: u8|
            s != old(player_seat).seat_index ==> #[trigger] final(hand_state).is_all_in(s) == old(
                hand_state,
            ).is_all_in(s),
{
    if table.status != TableStatus::Playing {
        return Err(HiddenHandError::HandNotInProgress);
    }
    if !hand_state.phase.is_betting_phase() {
        return Err(HiddenHandError::InvalidPhase);
    }
    if hand_state.action_on != player_seat.seat_index {
        return Err(HiddenHandError::NotPlayersTurn);
    }
    if !hand_state.is_player_active(player_seat.seat_index) {
        return Err(HiddenHandError::PlayerFolded);
    }
    if player_seat.status != PlayerStatus::Playing {
        return Err(HiddenHandError::InvalidAction);
    }
    if !has_elapsed(now, hand_state.last_action_time, ACTION_TIMEOUT_SECONDS) {
        return Err(HiddenHandError::ActionNotTimedOut);
    }
    // Check where that costs nothing, fold otherwise.
    let can_check = player_seat.current_bet >= hand_state.current_bet;
    let action = if can_check {
        Action::Check
    } else {
        Action::Fold
    };
    proof {
        assert(player_action::rejection(*table, *hand_state, *player_seat, action) is None);
        lemma_action_makes_progress(*table, *hand_state, *player_seat, *deck_state, action, now);
    }
    player_action::handler(table, hand_state, deck_state, player_seat, action, now)
}

} // verus!
