//! The start of a hand: the button moves on and a fresh hand is set up.

use vstd::prelude::*;
use crate::constants::{CARD_NOT_REVEALED, MIN_PLAYERS};
use crate::error::HiddenHandError;
use crate::state::deck::DeckState;
use crate::state::hand::{GamePhase, HandState};
use crate::state::seat_mask::{lemma_mask_empty, lemma_next_in_mask, mask_next, next_in_mask};
use crate::state::table::{Table, TableStatus};

verus! {

/// The next occupied seat clockwise of `seat`; `seat` itself where no seat
/// is occupied.
pub open spec fn occupied_after(table: Table, seat: u8) -> u8 {
    match next_in_mask(table.occupied_seats, seat, table.max_players) {
        Some(next) => next,
        None => seat,
    }
}

/// Why a hand cannot start, if it cannot: fewer than two players are
/// seated, a hand is already in progress, or the hand number has run out.
pub open spec fn rejection(table: Table) -> Option<HiddenHandError> {
    if table.current_players < MIN_PLAYERS {
        Some(HiddenHandError::NotEnoughPlayers)
    } else if table.status != TableStatus::Waiting {
        Some(HiddenHandError::HandAlreadyInProgress)
    } else if table.hand_number == u64::MAX {
        Some(HiddenHandError::Overflow)
    } else {
        None
    }
}

/// The table once a hand has started: the hand number has gone up, the
/// table plays, and the button has moved to the next occupied seat.
pub open spec fn table_after_start(table: Table) -> Table {
    Table {
        hand_number: (table.hand_number + 1) as u64,
        status: TableStatus::Playing,
        dealer_position: occupied_after(table, table.dealer_position),
        ..table
    }
}

/// `hand` is the fresh hand of a table that has just started one at time
/// `now`: it is being dealt, the pot is empty, the bet to call and the
/// minimum raise are the big blind, every occupied seat is active, nobody
/// has acted or is all-in, the board is hidden, and the turn is set to the
/// third occupied seat clockwise of the button.
pub open spec fn is_fresh_hand(hand: HandState, table: Table, now: i64) -> bool {
    let small = occupied_after(table, table.dealer_position);
    let big = occupied_after(table, small);
    &&& hand.table == table.table_id
    &&& hand.hand_number == table.hand_number
    &&& hand.phase == GamePhase::Dealing
    &&& hand.pot == 0
    &&& hand.current_bet == table.big_blind
    &&& hand.min_raise == table.big_blind
    &&& hand.dealer_position == table.dealer_position
    &&& hand.action_on == occupied_after(table, big)
    &&& forall|i: int| 0 <= i < 5 ==> hand.community_cards@[i] == CARD_NOT_REVEALED
    &&& hand.community_revealed == 0
    &&& hand.active_players == table.occupied_seats
    &&& hand.acted_this_round == 0
    &&& hand.active_count == table.current_players
    &&& hand.all_in_players == 0
    &&& hand.last_action_time == now
    &&& hand.hand_start_time == now
    &&& hand.bump == 0
}

/// `deck` is the blank deck of a hand that has just started: no card is
/// dealt and the shuffle has not taken place.
pub open spec fn is_blank_deck(deck: DeckState, table: Table) -> bool {
    &&& deck.hand == table.table_id
    &&& forall|i: int| 0 <= i < 52 ==> deck.cards@[i] == 0
    &&& deck.deal_index == 0
    &&& !deck.is_shuffled
    &&& forall|i: int| 0 <= i < 32 ==> deck.vrf_seed@[i] == 0
    &&& !deck.seed_received
    &&& deck.bump == 0
}

/// The next occupied seat clockwise of `seat`.
fn next_occupied(table: &Table, seat: u8) -> (r: u8)
    requires
        0 < table.max_players <= 8,
        seat < table.max_players,
    ensures
        r == occupied_after(*table, seat),
        r < table.max_players,
{
    match mask_next(table.occupied_seats, seat, table.max_players) {
        Some(next) => next,
        None => seat,
    }
}

/// Starts a new hand at a table that waits with at least two players.
///
/// The hand number goes up, the table plays, the button moves to the next
/// occupied seat, and a fresh hand and a blank deck are returned. A
/// rejected start changes nothing.
pub fn handler(table: &mut Table, now: i64) -> (r: Result<(HandState, DeckState), HiddenHandError>)
    requires
        old(table).wf(),
    ensures
        match r {
            Ok((hand, deck)) => {
                &&& rejection(*old(table)) is None
                &&& *final(table) == table_after_start(*old(table))
                &&& is_fresh_hand(hand, *final(table), now)
                &&& is_blank_deck(deck, *final(table))
                &&& final(table).wf()
                &&& hand.wf(final(table).max_players)
            },
            Err(e) => rejection(*old(table)) == Some(e) && *final(table) == *old(table),
        },
{
    if table.current_players < MIN_PLAYERS {
        return Err(HiddenHandError::NotEnoughPlayers);
    }
    if table.status != TableStatus::Waiting {
        return Err(HiddenHandError::HandAlreadyInProgress);
    }
    if table.hand_number == u64::MAX {
        return Err(HiddenHandError::Overflow);
    }
    table.hand_number = table.hand_number + 1;
    table.status = TableStatus::Playing;
    table.advance_dealer();

    // Blinds sit left of the button; the first to act sits left of them.
    let dealer_pos = table.dealer_position;
    let sb_pos = next_occupied(table, dealer_pos);
    let bb_pos = next_occupied(table, sb_pos);
    let action_pos = next_occupied(table, bb_pos);

    let hand_state = HandState {
        table: table.table_id,
        hand_number: table.hand_number,
        phase: GamePhase::Dealing,
        pot: 0,
        current_bet: table.big_blind,
        min_raise: table.big_blind,
        dealer_position: dealer_pos,
        action_on: action_pos,
        community_cards: [CARD_NOT_REVEALED; 5],
        community_revealed: 0,
        active_players: table.occupied_seats,
        acted_this_round: 0,
        active_count: table.current_players,
        all_in_players: 0,
        last_action_time: now,
        hand_start_time: now,
        bump: 0,
    };
    let deck_state = DeckState {
        hand: table.table_id,
        cards: [0u128; 52],
        deal_index: 0,
        is_shuffled: false,
        vrf_seed: [0u8; 32],
        seed_received: false,
        bump: 0,
    };
    proof {
        lemma_mask_empty(0u8);
    }
    Ok((hand_state, deck_state))
}

} // verus!
