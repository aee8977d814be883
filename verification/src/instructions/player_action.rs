//! A player's action in a betting round: fold, check, call, raise or
//! all-in, followed by the move of the turn or the end of the round.

use vstd::prelude::*;
use crate::error::HiddenHandError;
use crate::state::deck::DeckState;
use crate::state::hand::{GamePhase, HandState};
use crate::state::player::{PlayerSeat, PlayerStatus};
use crate::state::seat_mask::{
    lemma_count_without, lemma_mask_add, lemma_mask_diff, lemma_mask_empty, lemma_mask_remove,
    lemma_next_in_mask, mask_add, mask_below, mask_count, mask_has, mask_minus, mask_next,
    mask_remove, next_in_mask,
};
use crate::state::table::{Table, TableStatus};

verus! {

/// What a player can do when it is their turn.
#[derive(Clone, Copy, PartialEq, Eq, Debug, Structural)]
pub enum Action {
    Fold,
    Check,
    Call,
    Raise { amount: u64 },
    AllIn,
}

/// Chips the seat still has to put in to match the current bet.
pub open spec fn to_call(hand: HandState, seat: PlayerSeat) -> u64 {
    if hand.current_bet > seat.current_bet {
        (hand.current_bet - seat.current_bet) as u64
    } else {
        0
    }
}

/// Chips the action asks the seat to put in: nothing for a fold or check,
/// the amount to call, the amount of the raise, or the whole stack.
pub open spec fn wager(hand: HandState, seat: PlayerSeat, action: Action) -> u64 {
    match action {
        Action::Fold => 0,
        Action::Check => 0,
        Action::Call => to_call(hand, seat),
        Action::Raise { amount } => amount,
        Action::AllIn => seat.chips,
    }
}

/// Chips that actually move to the pot: the wager, capped by the stack.
pub open spec fn bet_size(hand: HandState, seat: PlayerSeat, action: Action) -> u64 {
    seat.stake(wager(hand, seat, action))
}

/// The action moves chips: call, raise or all-in.
pub open spec fn is_bet(action: Action) -> bool {
    action is Call || action is Raise || action is AllIn
}

/// The bet total that a raise or an all-in announces: what the seat has
/// bet in this round plus the amount of the raise, or plus the whole stack.
/// A raise counts as announced, also where the stack covers less of it.
pub open spec fn announced_total(seat: PlayerSeat, action: Action) -> int {
    match action {
        Action::Raise { amount } => seat.current_bet + amount,
        Action::AllIn => seat.current_bet + seat.chips,
        _ => seat.current_bet as int,
    }
}

/// The amount by which a raise goes beyond the current bet, zero where it
/// does not reach it.
pub open spec fn raise_increment(hand: HandState, seat: PlayerSeat, action: Action) -> int {
    if announced_total(seat, action) > hand.current_bet {
        announced_total(seat, action) - hand.current_bet
    } else {
        0
    }
}

/// The action is a raise or an all-in that lifts the current bet.
pub open spec fn lifts_bet(hand: HandState, seat: PlayerSeat, action: Action) -> bool {
    (action is Raise || action is AllIn) && announced_total(seat, action) > hand.current_bet
}

/// Why the action is rejected, if it is. The checks are made in this
/// order: the table plays, the hand is in a betting phase, it is the
/// seat's turn, the seat is playing, the action is legal for the bet that
/// stands, and no counter overflows.
pub open spec fn rejection(table: Table, hand: HandState, seat: PlayerSeat, action: Action)
    -> Option<HiddenHandError> {
    if table.status != TableStatus::Playing {
        Some(HiddenHandError::HandNotInProgress)
    } else if !hand.phase.is_betting() {
        Some(HiddenHandError::InvalidPhase)
    } else if hand.action_on != seat.seat_index {
        Some(HiddenHandError::NotPlayersTurn)
    } else if seat.status != PlayerStatus::Playing {
        Some(HiddenHandError::PlayerFolded)
    } else if action is Check && to_call(hand, seat) > 0 {
        Some(HiddenHandError::CannotCheck)
    } else if action is Call && to_call(hand, seat) == 0 {
        Some(HiddenHandError::InvalidAction)
    } else if action is Raise && announced_total(seat, action) > u64::MAX {
        Some(HiddenHandError::Overflow)
    } else if action is Raise && raise_increment(hand, seat, action) < hand.min_raise {
        Some(HiddenHandError::RaiseTooSmall)
    } else if seat.current_bet + bet_size(hand, seat, action) > u64::MAX
        || seat.total_bet_this_hand + bet_size(hand, seat, action) > u64::MAX || hand.pot
        + bet_size(hand, seat, action) > u64::MAX {
        Some(HiddenHandError::Overflow)
    } else {
        None
    }
}

/// The seat after its action: a fold folds it, a bet moves the chips from
/// the stack to its bets, and a stack that a bet empties makes it all-in.
pub open spec fn seat_after_action(hand: HandState, seat: PlayerSeat, action: Action)
    -> PlayerSeat {
    let bet = bet_size(hand, seat, action);
    match action {
        Action::Fold => PlayerSeat { status: PlayerStatus::Folded, has_acted: true, ..seat },
        Action::Check => PlayerSeat { has_acted: true, ..seat },
        _ => PlayerSeat {
            chips: (seat.chips - bet) as u64,
            current_bet: (seat.current_bet + bet) as u64,
            total_bet_this_hand: (seat.total_bet_this_hand + bet) as u64,
            status: if bet == seat.chips {
                PlayerStatus::AllIn
            } else {
                seat.status
            },
            has_acted: true,
            ..seat
        },
    }
}

/// The hand after the action itself, before the turn moves. A fold takes
/// the seat out of the active set and settles the hand when one seat is
/// left. A bet grows the pot. A raise or all-in that lifts the current bet
/// sets the new bet and the new minimum raise and makes every other seat
/// act again. An all-in, or a bet that empties the stack, puts the seat in
/// the all-in set. The seat has acted.
pub open spec fn hand_after_bet(hand: HandState, seat: PlayerSeat, action: Action, now: i64)
    -> HandState {
    let actor = seat.seat_index;
    let bet = bet_size(hand, seat, action);
    let folds = action is Fold;
    let lifts = lifts_bet(hand, seat, action);
    HandState {
        phase: if folds && hand.active_count == 2 {
            GamePhase::Settled
        } else {
            hand.phase
        },
        pot: (hand.pot + bet) as u64,
        current_bet: if lifts {
            announced_total(seat, action) as u64
        } else {
            hand.current_bet
        },
        min_raise: if lifts {
            (announced_total(seat, action) - hand.current_bet) as u64
        } else {
            hand.min_raise
        },
        active_players: if folds {
            mask_remove(hand.active_players, actor)
        } else {
            hand.active_players
        },
        active_count: if folds {
            (hand.active_count - 1) as u8
        } else {
            hand.active_count
        },
        acted_this_round: if lifts {
            mask_add(0, actor)
        } else {
            mask_add(hand.acted_this_round, actor)
        },
        all_in_players: if action is AllIn || (is_bet(action) && bet == seat.chips) {
            mask_add(hand.all_in_players, actor)
        } else {
            hand.all_in_players
        },
        last_action_time: now,
        ..hand
    }
}

/// The board once the cards at the positions `from` up to, not including,
/// `to` are revealed from the deck.
pub open spec fn board_after(board: [u8; 5], deck: DeckState, from: u8, to: u8) -> [u8; 5] {
    [
        if from <= 0 < to {
            deck.board_card(0)
        } else {
            board[0]
        },
        if from <= 1 < to {
            deck.board_card(1)
        } else {
            board[1]
        },
        if from <= 2 < to {
            deck.board_card(2)
        } else {
            board[2]
        },
        if from <= 3 < to {
            deck.board_card(3)
        } else {
            board[3]
        },
        if from <= 4 < to {
            deck.board_card(4)
        } else {
            board[4]
        },
    ]
}

/// The seat that opens a betting round: the first seat clockwise of the
/// dealer that can bet; if none can, the first active seat; if none is
/// active, the dealer.
pub open spec fn first_to_act(hand: HandState, max_players: u8) -> u8 {
    match next_in_mask(hand.bettors(), hand.dealer_position, max_players) {
        Some(seat) => seat,
        None => match next_in_mask(hand.active_players, hand.dealer_position, max_players) {
            Some(seat) => seat,
            None => hand.dealer_position,
        },
    }
}

/// The hand at the start of the next phase: the next tranche of community
/// cards is revealed (three for the flop, one for the turn, one for the
/// river, none for the showdown), nobody has acted, nothing is to call, and
/// the turn is on the seat that opens the round.
pub open spec fn next_round(hand: HandState, deck: DeckState, max_players: u8) -> HandState {
    let size = hand.phase.next().board_size();
    HandState {
        phase: hand.phase.next(),
        community_cards: board_after(hand.community_cards, deck, hand.community_revealed, size),
        community_revealed: size,
        acted_this_round: 0,
        current_bet: 0,
        action_on: first_to_act(hand, max_players),
        ..hand
    }
}

/// The hand after a run-out: all community cards that are still hidden are
/// revealed at once and the hand goes to showdown.
pub open spec fn run_out(hand: HandState, deck: DeckState) -> HandState {
    HandState {
        phase: GamePhase::Showdown,
        community_cards: board_after(hand.community_cards, deck, hand.community_revealed, 5),
        community_revealed: 5,
        ..hand
    }
}

/// The hand after the turn has moved on from seat `actor`. A settled hand
/// stays as it is. Otherwise the turn goes to the next seat clockwise that
/// still has to act. If there is none the round is complete: with at least
/// two seats able to bet the next phase starts, else the board is run out
/// to showdown.
pub open spec fn after_turn(hand: HandState, deck: DeckState, actor: u8, max_players: u8)
    -> HandState {
    if !hand.phase.is_betting() {
        hand
    } else {
        match next_in_mask(hand.waiting(), actor, max_players) {
            Some(next) => HandState { action_on: next, ..hand },
            None => if hand.betting_open() {
                next_round(hand, deck, max_players)
            } else {
                run_out(hand, deck)
            },
        }
    }
}

/// The hand after an accepted action.
pub open spec fn hand_after_action(
    hand: HandState,
    seat: PlayerSeat,
    deck: DeckState,
    max_players: u8,
    action: Action,
    now: i64,
) -> HandState {
    after_turn(hand_after_bet(hand, seat, action, now), deck, seat.seat_index, max_players)
}

/// An accepted action leaves a valid hand valid, and a valid seat valid.
pub proof fn lemma_action_keeps_valid(
    table: Table,
    hand: HandState,
    seat: PlayerSeat,
    deck: DeckState,
    action: Action,
    now: i64,
)
    requires
        hand.wf(table.max_players),
        rejection(table, hand, seat, action) is None,
    ensures
        hand_after_action(hand, seat, deck, table.max_players, action, now).wf(table.max_players),
        seat.wf() ==> seat_after_action(hand, seat, action).wf(),
        hand_after_action(hand, seat, deck, table.max_players, action, now).community_revealed
            >= hand.community_revealed,
        hand_after_action(hand, seat, deck, table.max_players, action, now).pot >= hand.pot,
        seat_after_action(hand, seat, action).chips <= seat.chips,
        seat.chips + hand.pot == seat_after_action(hand, seat, action).chips + hand_after_action(
            hand,
            seat,
            deck,
            table.max_players,
            action,
            now,
        ).pot,
{
    let n = table.max_players;
    let actor = seat.seat_index;
    let h1 = hand_after_bet(hand, seat, action, now);
    lemma_mask_remove(hand.active_players, actor);
    lemma_mask_add(hand.acted_this_round, actor);
    lemma_mask_add(0u8, actor);
    lemma_mask_add(hand.all_in_players, actor);
    lemma_mask_empty(0u8);
    assert(hand.is_active(actor));
    assert(mask_below(h1.active_players, n));
    assert(mask_below(h1.all_in_players, n));
    assert(mask_below(h1.acted_this_round, n));
    assert(h1.active_count == mask_count(h1.active_players));
    if h1.phase.is_betting() {
        lemma_mask_diff(h1.active_players, h1.all_in_players);
        lemma_mask_diff(h1.bettors(), h1.acted_this_round);
        lemma_next_in_mask(h1.waiting(), actor, n);
        match next_in_mask(h1.waiting(), actor, n) {
            Some(next) => {
                let h2 = HandState { action_on: next, ..h1 };
                assert(h2.needs_to_act(next));
            },
            None => {
                if h1.betting_open() {
                    let h2 = next_round(h1, deck, n);
                    lemma_mask_empty(h1.bettors());
                    lemma_next_in_mask(h1.bettors(), h1.dealer_position, n);
                    assert(mask_below(h1.bettors(), n));
                    let first = first_to_act(h1, n);
                    assert(mask_has(h1.bettors(), first));
                    lemma_mask_diff(h2.active_players, h2.all_in_players);
                    assert(h2.needs_to_act(first));
                }
            },
        }
    }
}

/// A raise or all-in that lifts the current bet clears the acted mark of
/// every other seat: all of them have to respond to the new bet.
pub proof fn lemma_raise_reopens_round(
    table: Table,
    hand: HandState,
    seat: PlayerSeat,
    deck: DeckState,
    action: Action,
    now: i64,
)
    requires
        hand.wf(table.max_players),
        rejection(table, hand, seat, action) is None,
        lifts_bet(hand, seat, action),
    ensures
        hand_after_bet(hand, seat, action, now).current_bet > hand.current_bet,
        forall|s: u8|
            s != seat.seat_index ==> !#[trigger] hand_after_bet(hand, seat, action, now).has_acted(s),
        forall|s: u8|
            s != seat.seat_index ==> !#[trigger] hand_after_action(
                hand,
                seat,
                deck,
                table.max_players,
                action,
                now,
            ).has_acted(s),
{
    lemma_mask_add(0u8, seat.seat_index);
    lemma_mask_empty(0u8);
}

/// An action changes the standing of the acting seat only: every other
/// seat stays active or folded, and all-in or not, as it was.
pub proof fn lemma_action_leaves_others(
    table: Table,
    hand: HandState,
    seat: PlayerSeat,
    deck: DeckState,
    action: Action,
    now: i64,
)
    requires
        hand.wf(table.max_players),
        rejection(table, hand, seat, action) is None,
    ensures
        forall|s: u8|
            s != seat.seat_index ==> #[trigger] hand_after_action(
                hand,
                seat,
                deck,
                table.max_players,
                action,
                now,
            ).is_active(s) == hand.is_active(s),
        forall|s: u8|
            s != seat.seat_index ==> #[trigger] hand_after_action(
                hand,
                seat,
                deck,
                table.max_players,
                action,
                now,
            ).is_all_in(s) == hand.is_all_in(s),
{
    lemma_mask_remove(hand.active_players, seat.seat_index);
    lemma_mask_add(hand.all_in_players, seat.seat_index);
}

/// An action that does not lift the current bet brings the hand closer to
/// its end: either a later phase begins, or one seat fewer has to act in
/// this round. The turn does not stay where it was unless the phase
/// changed.
pub proof fn lemma_action_makes_progress(
    table: Table,
    hand: HandState,
    seat: PlayerSeat,
    deck: DeckState,
    action: Action,
    now: i64,
)
    requires
        hand.wf(table.max_players),
        rejection(table, hand, seat, action) is None,
        !lifts_bet(hand, seat, action),
    ensures
        remaining_steps(hand_after_action(hand, seat, deck, table.max_players, action, now))
            < remaining_steps(hand),
        hand_after_action(hand, seat, deck, table.max_players, action, now).phase.index()
            >= hand.phase.index(),
        hand_after_action(hand, seat, deck, table.max_players, action, now).phase != hand.phase
            || hand_after_action(hand, seat, deck, table.max_players, action, now).action_on
            != hand.action_on,
{
    let n = table.max_players;
    let actor = seat.seat_index;
    let h1 = hand_after_bet(hand, seat, action, now);
    let h2 = hand_after_action(hand, seat, deck, n, action, now);
    lemma_mask_remove(hand.active_players, actor);
    lemma_mask_add(hand.acted_this_round, actor);
    lemma_mask_add(hand.all_in_players, actor);
    lemma_mask_diff(hand.active_players, hand.all_in_players);
    lemma_mask_diff(hand.bettors(), hand.acted_this_round);
    lemma_mask_diff(h1.active_players, h1.all_in_players);
    lemma_mask_diff(h1.bettors(), h1.acted_this_round);
    assert(mask_has(hand.waiting(), actor));
    assert forall|s: u8| s < 8 implies mask_has(h1.waiting(), s) == (mask_has(hand.waiting(), s)
        && s != actor) by {}
    lemma_count_without(hand.waiting(), h1.waiting(), actor);
    if h1.phase.is_betting() {
        lemma_next_in_mask(h1.waiting(), actor, n);
        match next_in_mask(h1.waiting(), actor, n) {
            Some(next) => {
                assert(h2.waiting() == h1.waiting());
            },
            None => {
                if h1.betting_open() {
                    assert(h2.phase.index() == hand.phase.index() + 1);
                }
            },
        }
    }
}

/// A seat record is in step with the hand when a seat that the hand counts
/// among those that can bet is a playing seat.
pub open spec fn seat_in_step(hand: HandState, seat: PlayerSeat) -> bool {
    hand.can_bet(seat.seat_index) ==> seat.status == PlayerStatus::Playing
}

/// An accepted action leaves the record of the acting seat in step with
/// the hand.
pub proof fn lemma_actor_stays_in_step(
    table: Table,
    hand: HandState,
    seat: PlayerSeat,
    deck: DeckState,
    action: Action,
    now: i64,
)
    requires
        hand.wf(table.max_players),
        rejection(table, hand, seat, action) is None,
    ensures
        seat_in_step(
            hand_after_action(hand, seat, deck, table.max_players, action, now),
            seat_after_action(hand, seat, action),
        ),
{
    lemma_mask_remove(hand.active_players, seat.seat_index);
    lemma_mask_add(hand.all_in_players, seat.seat_index);
}

/// An accepted action leaves the record of every other seat in step with
/// the hand.
pub proof fn lemma_others_stay_in_step(
    table: Table,
    hand: HandState,
    seat: PlayerSeat,
    deck: DeckState,
    action: Action,
    now: i64,
    other: PlayerSeat,
)
    requires
        hand.wf(table.max_players),
        rejection(table, hand, seat, action) is None,
        other.seat_index != seat.seat_index,
        seat_in_step(hand, other),
    ensures
        seat_in_step(hand_after_action(hand, seat, deck, table.max_players, action, now), other),
{
    lemma_action_leaves_others(table, hand, seat, deck, action, now);
}

/// How far a hand is from its end: the phases still to come weigh most,
/// then the seats that still have to act in this round.
pub open spec fn remaining_steps(hand: HandState) -> nat {
    ((6 - hand.phase.index()) * 9 + mask_count(hand.waiting())) as nat
}

/// Finds the next seat clockwise of `after_seat` that still has to act:
/// active, not all-in, and without an action in this round.
pub fn find_next_player_who_can_act(hand_state: &HandState, after_seat: u8, max_players: u8) -> (r:
    Option<u8>)
    requires
        0 < max_players <= 8,
        after_seat < max_players,
    ensures
        r == next_in_mask(hand_state.waiting(), after_seat, max_players),
        r matches Some(s) ==> s < max_players && hand_state.needs_to_act(s),
        r is None ==> forall|s: u8| s < max_players ==> !#[trigger] hand_state.needs_to_act(s),
{
    let can_bet = hand_state.players_who_can_bet();
    let waiting = mask_minus(can_bet, hand_state.acted_this_round);
    let r = mask_next(waiting, after_seat, max_players);
    proof {
        assert forall|s: u8| #[trigger] hand_state.needs_to_act(s) == mask_has(waiting, s) by {}
    }
    r
}

/// Finds the seat that opens a betting round: the first seat clockwise of
/// the dealer that can bet, else the first active seat, else the dealer.
pub fn get_first_active_left_of_dealer(hand_state: &HandState, max_players: u8) -> (r: u8)
    requires
        0 < max_players <= 8,
        hand_state.dealer_position < max_players,
    ensures
        r == first_to_act(*hand_state, max_players),
        r < max_players,
{
    let can_bet = hand_state.players_who_can_bet();
    match mask_next(can_bet, hand_state.dealer_position, max_players) {
        Some(seat) => seat,
        None => match hand_state.next_active_player(hand_state.dealer_position, max_players) {
            Some(seat) => seat,
            None => hand_state.dealer_position,
        },
    }
}

/// Reveals the community cards from the first hidden position up to, not
/// including, position `to`.
fn reveal_board(hand_state: &mut HandState, deck_state: &DeckState, to: u8)
    requires
        old(hand_state).community_revealed <= to <= 5,
    ensures
        *final(hand_state) == (HandState {
            community_cards: board_after(
                old(hand_state).community_cards,
                *deck_state,
                old(hand_state).community_revealed,
                to,
            ),
            community_revealed: to,
            ..*old(hand_state)
        }),
{
    let from = hand_state.community_revealed;
    let mut i: u8 = from;
    while i < to
        invariant
            from <= i <= to <= 5,
            *hand_state == (HandState {
                community_cards: hand_state.community_cards,
                ..*old(hand_state)
            }),
            forall|j: int|
                0 <= j < 5 ==> hand_state.community_cards@[j] == if from <= j < i {
                    deck_state.board_card(j)
                } else {
                    old(hand_state).community_cards@[j]
                },
        decreases to - i,
    {
        hand_state.community_cards[i as usize] = deck_state.community_card(i as usize);
        i += 1;
    }
    hand_state.community_revealed = to;
    assert(hand_state.community_cards =~= board_after(
        old(hand_state).community_cards,
        *deck_state,
        from,
        to,
    ));
}

/// Starts the next phase: reveals its community cards, resets the betting
/// round and hands the turn to the seat that opens the round.
pub fn advance_to_next_phase(hand_state: &mut HandState, deck_state: &DeckState, max_players: u8)
    requires
        0 < max_players <= 8,
        old(hand_state).dealer_position < max_players,
        old(hand_state).phase.is_betting(),
        old(hand_state).community_revealed == old(hand_state).phase.board_size(),
    ensures
        *final(hand_state) == next_round(*old(hand_state), *deck_state, max_players),
{
    let first = get_first_active_left_of_dealer(hand_state, max_players);
    let size: u8 = match hand_state.phase {
        GamePhase::PreFlop => 3,
        GamePhase::Flop => 4,
        _ => 5,
    };
    reveal_board(hand_state, deck_state, size);
    hand_state.advance_phase();
    hand_state.action_on = first;
}

/// Runs the board out: reveals every community card that is still hidden
/// and sends the hand to showdown.
pub fn run_out_to_showdown(hand_state: &mut HandState, deck_state: &DeckState)
    requires
        old(hand_state).community_revealed <= 5,
    ensures
        *final(hand_state) == run_out(*old(hand_state), *deck_state),
{
    reveal_board(hand_state, deck_state, 5);
    hand_state.phase = GamePhase::Showdown;
}

/// Checks an action against the rules without changing anything.
pub fn check_action(table: &Table, hand_state: &HandState, player_seat: &PlayerSeat, action: Action)
    -> (r: Result<(), HiddenHandError>)
    ensures
        r == match rejection(*table, *hand_state, *player_seat, action) {
            Some(e) => Err::<(), HiddenHandError>(e),
            None => Ok(()),
        },
{
    if table.status != TableStatus::Playing {
        return Err(HiddenHandError::HandNotInProgress);
    }
    if !hand_state.phase.is_betting_phase() {
        return Err(HiddenHandError::InvalidPhase);
    }
    if hand_state.action_on != player_seat.seat_index {
        return Err(HiddenHandError::NotPlayersTurn);
    }
    if !player_seat.can_act() {
        return Err(HiddenHandError::PlayerFolded);
    }
    let to_call = hand_state.current_bet.saturating_sub(player_seat.current_bet);
    let wager = match action {
        Action::Fold => 0,
        Action::Check => {
            if to_call != 0 {
                return Err(HiddenHandError::CannotCheck);
            }
            0
        },
        Action::Call => {
            if to_call == 0 {
                return Err(HiddenHandError::InvalidAction);
            }
            to_call
        },
        Action::Raise { amount } => {
            let total_bet = match player_seat.current_bet.checked_add(amount) {
                Some(total) => total,
                None => {
                    return Err(HiddenHandError::Overflow);
                },
            };
            let raise_amount = total_bet.saturating_sub(hand_state.current_bet);
            if raise_amount < hand_state.min_raise {
                return Err(HiddenHandError::RaiseTooSmall);
            }
            amount
        },
        Action::AllIn => player_seat.chips,
    };
    let bet = if wager <= player_seat.chips {
        wager
    } else {
        player_seat.chips
    };
    if player_seat.current_bet.checked_add(bet).is_none()
        || player_seat.total_bet_this_hand.checked_add(bet).is_none() || hand_state.pot.checked_add(
        bet,
    ).is_none() {
        return Err(HiddenHandError::Overflow);
    }
    Ok(())
}

/// Applies one action of the player whose turn it is.
///
/// A rejected action changes nothing and returns the reason. An accepted
/// action updates the seat and the hand, marks the seat as having acted,
/// records the time, and moves the turn: to the next seat that still has to
/// act, or into the next phase, or to showdown.
pub fn handler(
    table: &Table,
    hand_state: &mut HandState,
    deck_state: &DeckState,
    player_seat: &mut PlayerSeat,
    action: Action,
    now: i64,
) -> (r: Result<(), HiddenHandError>)
    requires
        old(hand_state).wf(table.max_players),
    ensures
        match r {
            Ok(()) => {
                &&& rejection(*table, *old(hand_state), *old(player_seat), action) is None
                &&& *final(player_seat) == seat_after_action(
                    *old(hand_state),
                    *old(player_seat),
                    action,
                )
                &&& *final(hand_state) == hand_after_action(
                    *old(hand_state),
                    *old(player_seat),
                    *deck_state,
                    table.max_players,
                    action,
                    now,
                )
            },
            Err(e) => {
                &&& rejection(*table, *old(hand_state), *old(player_seat), action) == Some(e)
                &&& *final(hand_state) == *old(hand_state)
                &&& *final(player_seat) == *old(player_seat)
            },
        },
        r is Ok ==> final(hand_state).wf(table.max_players),
        r is Ok && old(player_seat).wf() ==> final(player_seat).wf(),
        r is Ok ==> final(hand_state).community_revealed >= old(hand_state).community_revealed,
        r is Ok ==> final(player_seat).chips <= old(player_seat).chips,
        r is Ok ==> final(player_seat).chips + final(hand_state).pot == old(player_seat).chips + old(
            hand_state,
        ).pot,
        r is Ok && lifts_bet(*old(hand_state), *old(player_seat), action) ==> forall|s: u8|
            s != old(player_seat).seat_index ==> !#[trigger] final(hand_state).has_acted(s),
        r is Ok ==> forall|s: u8|
            s != old(player_seat).seat_index ==> #[trigger] final(hand_state).is_active(s) == old(
                hand_state,
            ).is_active(s),
        r is Ok ==> forall|s: u8|
            s != old(player_seat).seat_index ==> #[trigger] final(hand_state).is_all_in(s) == old(
                hand_state,
            ).is_all_in(s),
{
    proof {
        if rejection(*table, *hand_state, *player_seat, action) is None {
            lemma_action_keeps_valid(*table, *hand_state, *player_seat, *deck_state, action, now);
            lemma_action_leaves_others(*table, *hand_state, *player_seat, *deck_state, action, now);
            if lifts_bet(*hand_state, *player_seat, action) {
                lemma_raise_reopens_round(
                    *table,
                    *hand_state,
                    *player_seat,
                    *deck_state,
                    action,
                    now,
                );
            }
        }
    }
    match check_action(table, hand_state, player_seat, action) {
        Err(e) => {
            return Err(e);
        },
        Ok(()) => {},
    }
    let max_players = table.max_players;
    let actor = player_seat.seat_index;
    let to_call = hand_state.current_bet.saturating_sub(player_seat.current_bet);
    let mut lifts = false;
    let mut all_in = false;

    match action {
        Action::Fold => {
            player_seat.fold();
            hand_state.fold_player(actor);
            // Only one player left: the hand ends and that player takes
            // the pot.
            if hand_state.active_count == 1 {
                hand_state.phase = GamePhase::Settled;
            }
        },
        Action::Check => {},
        Action::Call => {
            let actual_bet = player_seat.place_bet(to_call);
            hand_state.pot = hand_state.pot + actual_bet;
        },
        Action::Raise { amount } => {
            let new_total = player_seat.current_bet + amount;
            let actual_bet = player_seat.place_bet(amount);
            hand_state.pot = hand_state.pot + actual_bet;
            if new_total > hand_state.current_bet {
                hand_state.min_raise = new_total - hand_state.current_bet;
                hand_state.current_bet = new_total;
                lifts = true;
            }
        },
        Action::AllIn => {
            let all_in_amount = player_seat.chips;
            let actual_bet = player_seat.place_bet(all_in_amount);
            hand_state.pot = hand_state.pot + actual_bet;
            let new_bet = player_seat.current_bet;
            if new_bet > hand_state.current_bet {
                hand_state.min_raise = new_bet - hand_state.current_bet;
                hand_state.current_bet = new_bet;
                lifts = true;
            }
            all_in = true;
        },
    }
    match action {
        Action::Call | Action::Raise { .. } => {
            // A call or raise that empties the stack is an all-in too.
            if player_seat.chips == 0 {
                all_in = true;
            }
        },
        _ => {},
    }
    if all_in {
        hand_state.mark_all_in(actor);
    }
    if lifts {
        // There is a new bet to respond to: everybody else acts again.
        hand_state.acted_this_round = 0;
    }
    hand_state.mark_acted(actor);
    player_seat.has_acted = true;
    hand_state.last_action_time = now;
    assert(*player_seat == seat_after_action(*old(hand_state), *old(player_seat), action));
    assert(*hand_state == hand_after_bet(*old(hand_state), *old(player_seat), action, now));

    if hand_state.phase.is_betting_phase() {
        match find_next_player_who_can_act(hand_state, actor, max_players) {
            Some(next_player) => {
                hand_state.action_on = next_player;
            },
            None => {
                // Nobody else has to act in this round.
                if hand_state.can_anyone_bet() {
                    advance_to_next_phase(hand_state, deck_state, max_players);
                } else {
                    run_out_to_showdown(hand_state, deck_state);
                }
            },
        }
    }
    Ok(())
}

} // verus!
