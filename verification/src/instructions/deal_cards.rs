//! The deal: every seat with chips gets two hole cards from the deck, the
//! blinds are posted, and the first betting round opens.

use vstd::prelude::*;
use crate::constants::{CARD_NOT_REVEALED, DEAL_TIMEOUT_SECONDS};
use crate::error::HiddenHandError;
use crate::instructions::player_action::seat_in_step;
use crate::instructions::showdown::{duplicate_seats, has_duplicate_seats, seats_in_range};
use crate::instructions::start_hand::occupied_after;
use crate::instructions::timeout_player::has_elapsed;
use crate::state::deck::DeckState;
use crate::state::hand::{GamePhase, HandState};
use crate::state::player::{PlayerSeat, PlayerStatus};
use crate::state::seat_mask::{
    lemma_mask_add, lemma_mask_diff, lemma_mask_empty, lemma_next_in_mask, mask_add, mask_below,
    mask_count, mask_has, mask_next, mask_test, mask_with, next_in_mask,
};
use crate::state::table::{Table, TableStatus};

verus! {

/// A seat is dealt in when it has chips.
pub open spec fn is_dealt(seat: PlayerSeat) -> bool {
    seat.chips > 0
}

/// Number of seats among the first `n` that are dealt in.
pub open spec fn dealt_count(seats: Seq<PlayerSeat>, n: int) -> nat
    decreases n,
{
    if n <= 0 {
        0
    } else if is_dealt(seats[n - 1]) {
        dealt_count(seats, n - 1) + 1
    } else {
        dealt_count(seats, n - 1)
    }
}

/// The set of the seats among the first `n` that are dealt in.
pub open spec fn dealt_mask(seats: Seq<PlayerSeat>, n: int) -> u8
    decreases n,
{
    if n <= 0 {
        0
    } else if is_dealt(seats[n - 1]) {
        mask_add(dealt_mask(seats, n - 1), seats[n - 1].seat_index)
    } else {
        dealt_mask(seats, n - 1)
    }
}

/// With two players at the table the button posts the small blind.
pub open spec fn heads_up(table: Table) -> bool {
    table.current_players == 2
}

/// The seat that owes the small blind: the button when two play, else the
/// next occupied seat clockwise of the button.
pub open spec fn small_blind_seat(table: Table) -> u8 {
    if heads_up(table) {
        table.dealer_position
    } else {
        occupied_after(table, table.dealer_position)
    }
}

/// The seat that owes the big blind: the next occupied seat clockwise of
/// the small blind.
pub open spec fn big_blind_seat(table: Table) -> u8 {
    occupied_after(table, small_blind_seat(table))
}

/// The blind that a seat owes.
pub open spec fn blind_due(table: Table, seat: PlayerSeat) -> u64 {
    if seat.seat_index == small_blind_seat(table) {
        table.small_blind
    } else if seat.seat_index == big_blind_seat(table) {
        table.big_blind
    } else {
        0
    }
}

/// The blind that a seat posts: what it owes, capped by its stack.
pub open spec fn blind_posted(table: Table, seat: PlayerSeat) -> u64 {
    seat.stake(blind_due(table, seat))
}

/// The blinds that the dealt seats among the first `n` post together.
pub open spec fn blinds_total(table: Table, seats: Seq<PlayerSeat>, n: int) -> int
    decreases n,
{
    if n <= 0 {
        0
    } else if is_dealt(seats[n - 1]) {
        blinds_total(table, seats, n - 1) + blind_posted(table, seats[n - 1])
    } else {
        blinds_total(table, seats, n - 1)
    }
}

/// The seat that opens the first betting round: the small blind when two
/// play and it is in the hand, else the first active seat clockwise of the
/// big blind.
pub open spec fn opening_turn(table: Table, active: u8) -> u8 {
    if heads_up(table) && mask_has(active, small_blind_seat(table)) {
        small_blind_seat(table)
    } else {
        match next_in_mask(active, big_blind_seat(table), table.max_players) {
            Some(seat) => seat,
            None => big_blind_seat(table),
        }
    }
}

/// Seat `i` after the deal. A seat with chips plays: its per-hand fields
/// are reset, it posts its blind, and it holds the next two cards of the
/// deck, which are dealt from position 5 on in the order of the seats. A
/// seat without chips sits the hand out.
pub open spec fn seat_after_deal(table: Table, deck: DeckState, seats: Seq<PlayerSeat>, i: int)
    -> PlayerSeat {
    let seat = seats[i];
    let at = 5 + 2 * (dealt_count(seats, i) as int);
    let posted = blind_posted(table, seat);
    if is_dealt(seat) {
        PlayerSeat {
            chips: (seat.chips - posted) as u64,
            current_bet: posted,
            total_bet_this_hand: posted,
            hole_card_1: deck.cards@[at],
            hole_card_2: deck.cards@[at + 1],
            revealed_card_1: CARD_NOT_REVEALED,
            revealed_card_2: CARD_NOT_REVEALED,
            cards_revealed: false,
            status: PlayerStatus::Playing,
            has_acted: false,
            ..seat
        }
    } else {
        PlayerSeat { status: PlayerStatus::Sitting, ..seat }
    }
}

/// The hand after the deal: the first betting round is open, the blinds
/// are in the pot, the dealt seats are the active ones, nobody has acted or
/// is all-in, and the board is hidden.
pub open spec fn hand_after_deal(table: Table, hand: HandState, seats: Seq<PlayerSeat>, now: i64)
    -> HandState {
    let n = seats.len() as int;
    HandState {
        phase: GamePhase::PreFlop,
        pot: (hand.pot + blinds_total(table, seats, n)) as u64,
        action_on: opening_turn(table, dealt_mask(seats, n)),
        community_cards: [
            CARD_NOT_REVEALED,
            CARD_NOT_REVEALED,
            CARD_NOT_REVEALED,
            CARD_NOT_REVEALED,
            CARD_NOT_REVEALED,
        ],
        community_revealed: 0,
        active_players: dealt_mask(seats, n),
        active_count: dealt_count(seats, n) as u8,
        acted_this_round: 0,
        all_in_players: 0,
        last_action_time: now,
        ..hand
    }
}

/// Why a deal is rejected, if it is. The checks are made in this order:
/// the caller is the table operator or the deal window has passed; every
/// seat is a distinct seat of the table; the hand is being dealt; the deck
/// is shuffled; the table plays; at least two seats have chips; and the
/// pot does not overflow.
pub open spec fn rejection(
    table: Table,
    hand: HandState,
    deck: DeckState,
    seats: Seq<PlayerSeat>,
    caller_is_authority: bool,
    now: i64,
) -> Option<HiddenHandError> {
    let n = seats.len() as int;
    if !caller_is_authority && now - hand.last_action_time < DEAL_TIMEOUT_SECONDS {
        Some(HiddenHandError::UnauthorizedAuthority)
    } else if exists|i: int| 0 <= i < n && (#[trigger] seats[i]).seat_index >= table.max_players {
        Some(HiddenHandError::InvalidSeatIndex)
    } else if duplicate_seats(seats) {
        Some(HiddenHandError::DuplicateAccount)
    } else if hand.phase != GamePhase::Dealing {
        Some(HiddenHandError::InvalidPhase)
    } else if !deck.is_shuffled {
        Some(HiddenHandError::DeckNotShuffled)
    } else if table.status != TableStatus::Playing {
        Some(HiddenHandError::HandNotInProgress)
    } else if dealt_count(seats, n) < 2 {
        Some(HiddenHandError::NotEnoughPlayers)
    } else if hand.pot + blinds_total(table, seats, n) > u64::MAX {
        Some(HiddenHandError::Overflow)
    } else {
        None
    }
}

/// The set of dealt seats holds exactly the indices of the dealt seats,
/// and with distinct indices it is as large as their number.
pub proof fn lemma_dealt_mask(seats: Seq<PlayerSeat>, n: int)
    requires
        0 <= n <= seats.len(),
        forall|i: int| 0 <= i < seats.len() ==> (#[trigger] seats[i]).seat_index < 8,
        !duplicate_seats(seats),
    ensures
        forall|s: u8|
            #[trigger] mask_has(dealt_mask(seats, n), s) <==> exists|k: int|
                0 <= k < n && is_dealt(#[trigger] seats[k]) && seats[k].seat_index == s,
        mask_count(dealt_mask(seats, n)) == dealt_count(seats, n),
        dealt_count(seats, n) <= n,
    decreases n,
{
    if n <= 0 {
        lemma_mask_empty(0u8);
    } else {
        lemma_dealt_mask(seats, n - 1);
        let before = dealt_mask(seats, n - 1);
        let index = seats[n - 1].seat_index;
        if is_dealt(seats[n - 1]) {
            lemma_mask_add(before, index);
            if mask_has(before, index) {
                let k = choose|k: int|
                    0 <= k < n - 1 && is_dealt(#[trigger] seats[k]) && seats[k].seat_index == index;
                assert(seats[k].seat_index == seats[n - 1].seat_index);
            }
        }
        assert forall|s: u8| #[trigger] mask_has(dealt_mask(seats, n), s) <==> exists|k: int|
            0 <= k < n && is_dealt(#[trigger] seats[k]) && seats[k].seat_index == s by {
            if mask_has(before, s) {
                let k = choose|k: int|
                    0 <= k < n - 1 && is_dealt(#[trigger] seats[k]) && seats[k].seat_index == s;
                assert(0 <= k < n && is_dealt(seats[k]) && seats[k].seat_index == s);
            }
            if is_dealt(seats[n - 1]) && s == index {
                assert(is_dealt(seats[n - 1]) && seats[n - 1].seat_index == s);
            }
            if exists|k: int|
                0 <= k < n && is_dealt(#[trigger] seats[k]) && seats[k].seat_index == s {
                let k = choose|k: int|
                    0 <= k < n && is_dealt(#[trigger] seats[k]) && seats[k].seat_index == s;
                if k < n - 1 {
                    assert(mask_has(before, s));
                }
            }
        }
    }
}

/// After an accepted deal every seat record is in step with the hand: the
/// seats that the hand counts as able to bet are exactly the seats that
/// were dealt in, and those play.
pub proof fn lemma_deal_leaves_seats_in_step(
    table: Table,
    hand: HandState,
    deck: DeckState,
    seats: Seq<PlayerSeat>,
    caller_is_authority: bool,
    now: i64,
    i: int,
)
    requires
        table.wf(),
        rejection(table, hand, deck, seats, caller_is_authority, now) is None,
        0 <= i < seats.len(),
    ensures
        seat_in_step(
            hand_after_deal(table, hand, seats, now),
            seat_after_deal(table, deck, seats, i),
        ),
        hand_after_deal(table, hand, seats, now).can_bet(seats[i].seat_index) == is_dealt(seats[i]),
{
    let after = hand_after_deal(table, hand, seats, now);
    let n = seats.len() as int;
    assert forall|k: int| 0 <= k < n implies (#[trigger] seats[k]).seat_index < 8 by {}
    lemma_dealt_mask(seats, n);
    lemma_mask_diff(after.active_players, after.all_in_players);
    lemma_mask_empty(0u8);
    let index = seats[i].seat_index;
    if mask_has(dealt_mask(seats, n), index) {
        let k = choose|k: int|
            0 <= k < n && is_dealt(#[trigger] seats[k]) && seats[k].seat_index == index;
        if k < i {
            assert(seats[k].seat_index == seats[i].seat_index);
        } else if i < k {
            assert(seats[i].seat_index == seats[k].seat_index);
        }
    }
    if is_dealt(seats[i]) {
        assert(is_dealt(seats[i]) && seats[i].seat_index == index);
    }
}

/// The blinds of a prefix are never negative and grow with the prefix.
pub proof fn lemma_blinds_grow(table: Table, seats: Seq<PlayerSeat>, m: int, n: int)
    requires
        0 <= m <= n <= seats.len(),
    ensures
        0 <= blinds_total(table, seats, m) <= blinds_total(table, seats, n),
    decreases n,
{
    if m < n {
        lemma_blinds_grow(table, seats, m, n - 1);
    } else if n > 0 {
        lemma_blinds_grow(table, seats, m - 1, n - 1);
    }
}

/// The seat that owes the small blind.
fn find_small_blind(table: &Table) -> (r: u8)
    requires
        table.wf(),
    ensures
        r == small_blind_seat(*table),
        r < table.max_players,
{
    if table.current_players == 2 {
        table.dealer_position
    } else {
        match mask_next(table.occupied_seats, table.dealer_position, table.max_players) {
            Some(next) => next,
            None => table.dealer_position,
        }
    }
}

/// The seat that owes the big blind.
fn find_big_blind(table: &Table, small: u8) -> (r: u8)
    requires
        table.wf(),
        small == small_blind_seat(*table),
        small < table.max_players,
    ensures
        r == big_blind_seat(*table),
        r < table.max_players,
{
    match mask_next(table.occupied_seats, small, table.max_players) {
        Some(next) => next,
        None => small,
    }
}

/// Counts the seats that are dealt in and adds up the blinds they post;
/// `None` for the blinds where they do not fit in 64 bits.
fn tally_deal(table: &Table, seats: &Vec<PlayerSeat>, small: u8, big: u8) -> (r: (
    usize,
    Option<u64>,
))
    requires
        small == small_blind_seat(*table),
        big == big_blind_seat(*table),
    ensures
        r.0 == dealt_count(seats@, seats@.len() as int),
        match r.1 {
            Some(total) => total == blinds_total(*table, seats@, seats@.len() as int),
            None => blinds_total(*table, seats@, seats@.len() as int) > u64::MAX,
        },
{
    let mut count: usize = 0;
    let mut total: Option<u64> = Some(0);
    let mut i: usize = 0;
    while i < seats.len()
        invariant
            i <= seats@.len(),
            small == small_blind_seat(*table),
            big == big_blind_seat(*table),
            count == dealt_count(seats@, i as int),
            count <= i,
            match total {
                Some(sum) => sum == blinds_total(*table, seats@, i as int),
                None => blinds_total(*table, seats@, i as int) > u64::MAX,
            },
        decreases seats@.len() - i,
    {
        let seat = seats[i];
        proof {
            lemma_blinds_grow(*table, seats@, i as int, i as int + 1);
        }
        if seat.chips > 0 {
            count += 1;
            let due = if seat.seat_index == small {
                table.small_blind
            } else if seat.seat_index == big {
                table.big_blind
            } else {
                0
            };
            let posted = if due <= seat.chips {
                due
            } else {
                seat.chips
            };
            total = match total {
                Some(sum) => sum.checked_add(posted),
                None => None,
            };
        }
        i += 1;
    }
    (count, total)
}

/// Deals the hand and opens the first betting round. The table operator
/// may deal at once, anyone else once the deal window has passed.
///
/// Every seat with chips is dealt two cards from the deck and plays; the
/// seats left of the button post the blinds as far as their stacks go.
/// Seats without chips sit out. The turn goes to the seat that opens the
/// round. A rejected deal changes nothing.
pub fn handler(
    table: &Table,
    hand_state: &mut HandState,
    deck_state: &mut DeckState,
    seats: &mut Vec<PlayerSeat>,
    caller_is_authority: bool,
    now: i64,
) -> (r: Result<(), HiddenHandError>)
    requires
        table.wf(),
        old(hand_state).wf(table.max_players),
    ensures
        match r {
            Ok(()) => {
                &&& rejection(
                    *table,
                    *old(hand_state),
                    *old(deck_state),
                    old(seats)@,
                    caller_is_authority,
                    now,
                ) is None
                &&& final(seats)@.len() == old(seats)@.len()
                &&& forall|i: int|
                    0 <= i < old(seats)@.len() ==> #[trigger] final(seats)@[i] == seat_after_deal(
                        *table,
                        *old(deck_state),
                        old(seats)@,
                        i,
                    )
                &&& *final(hand_state) == hand_after_deal(
                    *table,
                    *old(hand_state),
                    old(seats)@,
                    now,
                )
                &&& *final(deck_state) == (DeckState {
                    deal_index: (5 + 2 * dealt_count(old(seats)@, old(seats)@.len() as int)) as u8,
                    ..*old(deck_state)
                })
                &&& final(hand_state).wf(table.max_players)
            },
            Err(e) => {
                &&& rejection(
                    *table,
                    *old(hand_state),
                    *old(deck_state),
                    old(seats)@,
                    caller_is_authority,
                    now,
                ) == Some(e)
                &&& *final(hand_state) == *old(hand_state)
                &&& *final(deck_state) == *old(deck_state)
                &&& final(seats)@ == old(seats)@
            },
        },
{
    if !caller_is_authority && !has_elapsed(now, hand_state.last_action_time, DEAL_TIMEOUT_SECONDS) {
        return Err(HiddenHandError::UnauthorizedAuthority);
    }
    if !seats_in_range(seats, table.max_players) {
        return Err(HiddenHandError::InvalidSeatIndex);
    }
    if has_duplicate_seats(seats) {
        return Err(HiddenHandError::DuplicateAccount);
    }
    if hand_state.phase != GamePhase::Dealing {
        return Err(HiddenHandError::InvalidPhase);
    }
    if !deck_state.is_shuffled {
        return Err(HiddenHandError::DeckNotShuffled);
    }
    if table.status != TableStatus::Playing {
        return Err(HiddenHandError::HandNotInProgress);
    }
    let sb_pos = find_small_blind(table);
    let bb_pos = find_big_blind(table, sb_pos);
    let (active_count, blinds) = tally_deal(table, seats, sb_pos, bb_pos);
    if active_count < 2 {
        return Err(HiddenHandError::NotEnoughPlayers);
    }
    let pot = match blinds {
        Some(posted) => match hand_state.pot.checked_add(posted) {
            Some(pot) => pot,
            None => {
                return Err(HiddenHandError::Overflow);
            },
        },
        None => {
            return Err(HiddenHandError::Overflow);
        },
    };
    let n = seats.len();
    proof {
        lemma_dealt_mask(seats@, n as int);
    }

    // The first five cards of the deck are the board; deal from the sixth.
    let mut active_players: u8 = 0;
    let mut deal_idx: usize = 5;
    let mut i: usize = 0;
    while i < n
        invariant
            i <= n <= 8,
            n == old(seats)@.len(),
            seats@.len() == n,
            sb_pos == small_blind_seat(*table),
            bb_pos == big_blind_seat(*table),
            forall|k: int| 0 <= k < n ==> (#[trigger] old(seats)@[k]).seat_index < 8,
            deal_idx == 5 + 2 * dealt_count(old(seats)@, i as int),
            dealt_count(old(seats)@, i as int) <= i,
            active_players == dealt_mask(old(seats)@, i as int),
            forall|k: int|
                0 <= k < i ==> #[trigger] seats@[k] == seat_after_deal(
                    *table,
                    *deck_state,
                    old(seats)@,
                    k,
                ),
            forall|k: int| i <= k < n ==> #[trigger] seats@[k] == old(seats)@[k],
        decreases n - i,
    {
        let mut seat = seats[i];
        if seat.chips > 0 {
            seat.reset_for_new_hand();
            let due = if seat.seat_index == sb_pos {
                table.small_blind
            } else if seat.seat_index == bb_pos {
                table.big_blind
            } else {
                0
            };
            let _posted = seat.place_bet(due);
            seat.hole_card_1 = deck_state.cards[deal_idx];
            seat.hole_card_2 = deck_state.cards[deal_idx + 1];
            seat.status = PlayerStatus::Playing;
            deal_idx += 2;
            active_players = mask_with(active_players, seat.seat_index);
        } else {
            seat.status = PlayerStatus::Sitting;
        }
        seats.set(i, seat);
        i += 1;
    }

    // Two play: the button acts first. Else the seat left of the big blind.
    let action_pos = if table.current_players == 2 && mask_test(active_players, sb_pos) {
        sb_pos
    } else {
        match mask_next(active_players, bb_pos, table.max_players) {
            Some(seat) => seat,
            None => bb_pos,
        }
    };
    proof {
        lemma_mask_empty(active_players);
        lemma_mask_empty(0u8);
        lemma_next_in_mask(active_players, bb_pos, table.max_players);
        assert forall|s: u8| #[trigger] mask_has(active_players, s) implies s
            < table.max_players by {
            let k = choose|k: int|
                0 <= k < n && is_dealt(#[trigger] old(seats)@[k]) && old(seats)@[k].seat_index == s;
        }
        assert(mask_has(active_players, action_pos));
    }
    hand_state.phase = GamePhase::PreFlop;
    hand_state.pot = pot;
    hand_state.action_on = action_pos;
    hand_state.community_cards = [CARD_NOT_REVEALED; 5];
    hand_state.community_revealed = 0;
    hand_state.active_players = active_players;
    hand_state.active_count = active_count as u8;
    hand_state.acted_this_round = 0;
    hand_state.all_in_players = 0;
    hand_state.last_action_time = now;
    deck_state.deal_index = deal_idx as u8;
    assert(hand_state.community_cards =~= hand_after_deal(
        *table,
        *old(hand_state),
        old(seats)@,
        now,
    ).community_cards);
    Ok(())
}

} // verus!
