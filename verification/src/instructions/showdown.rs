//! Settlement of a hand: refund of bets that nobody could match, the set
//! of winners, the split of the pot and the reset of the seats.

use vstd::prelude::*;
use crate::constants::{ACTION_TIMEOUT_SECONDS, CARD_NOT_REVEALED};
use crate::error::HiddenHandError;
use crate::events::{HandCompleted, PlayerHandResult};
use crate::instructions::timeout_player::has_elapsed;
use crate::state::hand::{GamePhase, HandState};
use crate::state::hand_eval::{
    best_of_seven, evaluate_hand, hand_score, lemma_best_of_seven_exists,
    lemma_precedes_is_score_order, precedes, rank_value, EvaluatedHand, HandRank, HandValue,
};
use crate::state::player::{PlayerSeat, PlayerStatus};
use crate::state::seat_mask::{mask_has, mask_test, mask_with};
use crate::state::table::{Table, TableStatus};

verus! {

/// The seat contests the pot: it plays or is all-in, and the hand counts it
/// as active.
pub open spec fn contends(hand: HandState, seat: PlayerSeat) -> bool {
    seat.contests() && hand.is_active(seat.seat_index)
}

/// Number of seats among the first `n` that contest the pot.
pub open spec fn contenders(hand: HandState, seats: Seq<PlayerSeat>, n: int) -> nat
    decreases n,
{
    if n <= 0 {
        0
    } else if contends(hand, seats[n - 1]) {
        contenders(hand, seats, n - 1) + 1
    } else {
        contenders(hand, seats, n - 1)
    }
}

/// The smallest total bet among the contesting seats of the first `n`; the
/// largest amount there is where none of them contests.
pub open spec fn lowest_stake(hand: HandState, seats: Seq<PlayerSeat>, n: int) -> u64
    decreases n,
{
    if n <= 0 {
        u64::MAX
    } else if contends(hand, seats[n - 1]) && seats[n - 1].total_bet_this_hand < lowest_stake(
        hand,
        seats,
        n - 1,
    ) {
        seats[n - 1].total_bet_this_hand
    } else {
        lowest_stake(hand, seats, n - 1)
    }
}

/// What seat `i` gets back because nobody could match it: with two or more
/// contesting seats, the amount by which a contesting seat's total bet
/// exceeds the smallest total bet among them.
pub open spec fn excess(hand: HandState, seats: Seq<PlayerSeat>, i: int) -> int {
    if contenders(hand, seats, seats.len() as int) >= 2 && contends(hand, seats[i]) {
        seats[i].total_bet_this_hand - lowest_stake(hand, seats, seats.len() as int)
    } else {
        0
    }
}

/// The refunds of the first `n` seats together.
pub open spec fn total_excess(hand: HandState, seats: Seq<PlayerSeat>, n: int) -> int
    decreases n,
{
    if n <= 0 {
        0
    } else {
        total_excess(hand, seats, n - 1) + excess(hand, seats, n - 1)
    }
}

/// The pot that is left for the winners once all refunds are paid.
pub open spec fn pot_to_award(hand: HandState, seats: Seq<PlayerSeat>) -> int {
    hand.pot - total_excess(hand, seats, seats.len() as int)
}

/// The seven cards of a seat at showdown: the two hole cards it has shown
/// and the five community cards.
pub open spec fn seven_cards(hand: HandState, seat: PlayerSeat) -> Seq<u8> {
    seq![
        seat.revealed_card_1,
        seat.revealed_card_2,
        hand.community_cards@[0],
        hand.community_cards@[1],
        hand.community_cards@[2],
        hand.community_cards@[3],
        hand.community_cards@[4],
    ]
}

/// Value of the best hand of a seat at showdown.
pub open spec fn seat_value(hand: HandState, seat: PlayerSeat) -> HandValue {
    best_of_seven(seven_cards(hand, seat))
}

/// Seat `i` wins: it contests the pot, and either it is the only active
/// seat, or no contesting seat holds a higher hand.
pub open spec fn is_top(hand: HandState, seats: Seq<PlayerSeat>, i: int) -> bool {
    contends(hand, seats[i]) && (hand.active_count == 1 || forall|j: int|
        0 <= j < seats.len() && contends(hand, seats[j]) ==> !precedes(
            seat_value(hand, seats[i]),
            #[trigger] seat_value(hand, seats[j]),
        ))
}

/// Number of winners among the first `n` seats.
pub open spec fn winner_count(hand: HandState, seats: Seq<PlayerSeat>, n: int) -> nat
    decreases n,
{
    if n <= 0 {
        0
    } else if is_top(hand, seats, n - 1) {
        winner_count(hand, seats, n - 1) + 1
    } else {
        winner_count(hand, seats, n - 1)
    }
}

/// Position of the winner with the lowest seat index among the first `n`
/// seats, the first of them where several share it; -1 without a winner.
pub open spec fn remainder_seat(hand: HandState, seats: Seq<PlayerSeat>, n: int) -> int
    decreases n,
{
    if n <= 0 {
        -1
    } else {
        let before = remainder_seat(hand, seats, n - 1);
        if is_top(hand, seats, n - 1) && (before < 0 || seats[n - 1].seat_index
            < seats[before].seat_index) {
            n - 1
        } else {
            before
        }
    }
}

/// What seat `i` wins from the pot: a winner gets an equal share of the
/// pot that is left after the refunds, and the winner with the lowest seat
/// index gets the remainder of the division on top.
pub open spec fn award(hand: HandState, seats: Seq<PlayerSeat>, i: int) -> int {
    let winners = winner_count(hand, seats, seats.len() as int) as int;
    if is_top(hand, seats, i) {
        pot_to_award(hand, seats) / winners + (if i == remainder_seat(
            hand,
            seats,
            seats.len() as int,
        ) {
            pot_to_award(hand, seats) % winners
        } else {
            0
        })
    } else {
        0
    }
}

/// All that seat `i` receives at settlement: refund and winnings.
pub open spec fn payout(hand: HandState, seats: Seq<PlayerSeat>, i: int) -> int {
    excess(hand, seats, i) + award(hand, seats, i)
}

/// The payouts of the first `n` seats together.
pub open spec fn total_payout(hand: HandState, seats: Seq<PlayerSeat>, n: int) -> int
    decreases n,
{
    if n <= 0 {
        0
    } else {
        total_payout(hand, seats, n - 1) + payout(hand, seats, n - 1)
    }
}

/// The chips of the first `n` seats together.
pub open spec fn total_chips(seats: Seq<PlayerSeat>, n: int) -> int
    decreases n,
{
    if n <= 0 {
        0
    } else {
        total_chips(seats, n - 1) + seats[n - 1].chips
    }
}

/// A seat after settlement: the payout is added to its stack and its
/// per-hand fields are reset.
pub open spec fn settled_seat(seat: PlayerSeat, paid: int) -> PlayerSeat {
    PlayerSeat {
        chips: (seat.chips + paid) as u64,
        status: PlayerStatus::Sitting,
        current_bet: 0,
        total_bet_this_hand: 0,
        hole_card_1: 255,
        hole_card_2: 255,
        revealed_card_1: CARD_NOT_REVEALED,
        revealed_card_2: CARD_NOT_REVEALED,
        cards_revealed: false,
        has_acted: false,
        ..seat
    }
}

/// All five community cards are on the board.
pub open spec fn board_complete(hand: HandState) -> bool {
    forall|i: int| 0 <= i < 5 ==> hand.community_cards@[i] != CARD_NOT_REVEALED
}

/// Two of the seats have the same seat index.
pub open spec fn duplicate_seats(seats: Seq<PlayerSeat>) -> bool {
    exists|i: int, j: int|
        0 <= i < j < seats.len() && #[trigger] seats[i].seat_index == #[trigger] seats[j].seat_index
}

/// Why a settlement is not taken up, if it is not. The checks are made in
/// this order: the caller is the table operator or the action window has
/// passed; every seat is a distinct seat of the table; the hand is at
/// showdown, or settled with one seat left; the board is complete unless
/// one seat is left; and every active seat of the hand is among the seats.
pub open spec fn entry_rejection(
    table: Table,
    hand: HandState,
    seats: Seq<PlayerSeat>,
    caller_is_authority: bool,
    now: i64,
) -> Option<HiddenHandError> {
    let n = seats.len() as int;
    if !caller_is_authority && now - hand.last_action_time < ACTION_TIMEOUT_SECONDS {
        Some(HiddenHandError::UnauthorizedAuthority)
    } else if exists|i: int| 0 <= i < n && (#[trigger] seats[i]).seat_index >= table.max_players {
        Some(HiddenHandError::InvalidSeatIndex)
    } else if duplicate_seats(seats) {
        Some(HiddenHandError::DuplicateAccount)
    } else if !(hand.phase == GamePhase::Showdown || (hand.phase == GamePhase::Settled
        && hand.active_count == 1)) {
        Some(HiddenHandError::InvalidPhase)
    } else if !(board_complete(hand) || hand.active_count == 1) {
        Some(HiddenHandError::InvalidPhase)
    } else if contenders(hand, seats, n) != hand.active_count {
        Some(HiddenHandError::ShowdownRequiresPlayers)
    } else {
        None
    }
}

/// Why the pot cannot be paid out, if it cannot. The checks are made in
/// this order: the refunds fit in the pot; with more than one seat left
/// all of them have shown their cards; there is a winner; and no stack
/// overflows.
pub open spec fn payment_rejection(hand: HandState, seats: Seq<PlayerSeat>) -> Option<
    HiddenHandError,
> {
    let n = seats.len() as int;
    if total_excess(hand, seats, n) > hand.pot {
        Some(HiddenHandError::Overflow)
    } else if hand.active_count > 1 && exists|i: int|
        0 <= i < n && contends(hand, #[trigger] seats[i]) && !seats[i].cards_revealed {
        Some(HiddenHandError::PlayersNotRevealed)
    } else if winner_count(hand, seats, n) == 0 {
        Some(HiddenHandError::InvalidPhase)
    } else if exists|i: int|
        0 <= i < n && (#[trigger] seats[i]).chips + payout(hand, seats, i) > u64::MAX {
        Some(HiddenHandError::Overflow)
    } else {
        None
    }
}

/// Why a settlement is rejected, if it is: the first reason for which it
/// is not taken up, else the first for which the pot cannot be paid out.
pub open spec fn rejection(
    table: Table,
    hand: HandState,
    seats: Seq<PlayerSeat>,
    caller_is_authority: bool,
    now: i64,
) -> Option<HiddenHandError> {
    match entry_rejection(table, hand, seats, caller_is_authority, now) {
        Some(e) => Some(e),
        None => payment_rejection(hand, seats),
    }
}

/// The smallest total bet among contesting seats is no more than the total
/// bet of any of them.
pub proof fn lemma_lowest_stake(hand: HandState, seats: Seq<PlayerSeat>, n: int, i: int)
    requires
        0 <= i < n <= seats.len(),
        contends(hand, seats[i]),
    ensures
        lowest_stake(hand, seats, n) <= seats[i].total_bet_this_hand,
    decreases n,
{
    if i < n - 1 {
        lemma_lowest_stake(hand, seats, n - 1, i);
    }
}

/// A refund is never negative and never more than the seat has bet.
pub proof fn lemma_excess_bounds(hand: HandState, seats: Seq<PlayerSeat>, i: int)
    requires
        0 <= i < seats.len(),
    ensures
        0 <= excess(hand, seats, i) <= seats[i].total_bet_this_hand,
{
    if contends(hand, seats[i]) {
        lemma_lowest_stake(hand, seats, seats.len() as int, i);
    }
}

/// The refunds of a prefix are never negative and grow with the prefix.
pub proof fn lemma_total_excess_grows(hand: HandState, seats: Seq<PlayerSeat>, m: int, n: int)
    requires
        0 <= m <= n <= seats.len(),
    ensures
        0 <= total_excess(hand, seats, m) <= total_excess(hand, seats, n),
    decreases n,
{
    if m < n {
        lemma_total_excess_grows(hand, seats, m, n - 1);
        lemma_excess_bounds(hand, seats, n - 1);
    } else if n > 0 {
        lemma_total_excess_grows(hand, seats, m - 1, n - 1);
        lemma_excess_bounds(hand, seats, n - 1);
    }
}

/// The seat that takes the remainder is a winner, and there is one
/// whenever there is a winner.
pub proof fn lemma_remainder_seat(hand: HandState, seats: Seq<PlayerSeat>, n: int)
    requires
        0 <= n <= seats.len(),
    ensures
        -1 <= remainder_seat(hand, seats, n) < n,
        remainder_seat(hand, seats, n) >= 0 ==> is_top(
            hand,
            seats,
            remainder_seat(hand, seats, n),
        ),
        remainder_seat(hand, seats, n) < 0 <==> winner_count(hand, seats, n) == 0,
        winner_count(hand, seats, n) <= n,
        forall|j: int|
            0 <= j < n && #[trigger] is_top(hand, seats, j) ==> seats[remainder_seat(
                hand,
                seats,
                n,
            )].seat_index <= seats[j].seat_index,
    decreases n,
{
    if n > 0 {
        lemma_remainder_seat(hand, seats, n - 1);
        let p = remainder_seat(hand, seats, n);
        let q = remainder_seat(hand, seats, n - 1);
        assert forall|j: int| 0 <= j < n && #[trigger] is_top(hand, seats, j) implies seats[p].seat_index
            <= seats[j].seat_index by {
            if j < n - 1 {
                lemma_winner_counted(hand, seats, n - 1, j);
                assert(seats[q].seat_index <= seats[j].seat_index);
            }
        }
    }
}

/// The winnings of the first `n` seats together, for a split among
/// `winners` seats where the seat at position `first` takes the remainder.
pub open spec fn total_award(hand: HandState, seats: Seq<PlayerSeat>, n: int) -> int
    decreases n,
{
    if n <= 0 {
        0
    } else {
        total_award(hand, seats, n - 1) + award(hand, seats, n - 1)
    }
}

/// The winnings of a prefix are one share for each winner in it, and the
/// remainder once the seat that takes it is in the prefix.
proof fn lemma_total_award(hand: HandState, seats: Seq<PlayerSeat>, n: int)
    requires
        0 <= n <= seats.len(),
    ensures
        total_award(hand, seats, n) == (pot_to_award(hand, seats) / (winner_count(
            hand,
            seats,
            seats.len() as int,
        ) as int)) * winner_count(hand, seats, n) + (if 0 <= remainder_seat(
            hand,
            seats,
            seats.len() as int,
        ) < n {
            pot_to_award(hand, seats) % (winner_count(hand, seats, seats.len() as int) as int)
        } else {
            0
        }),
    decreases n,
{
    let share = pot_to_award(hand, seats) / (winner_count(hand, seats, seats.len() as int) as int);
    if n > 0 {
        lemma_total_award(hand, seats, n - 1);
        lemma_remainder_seat(hand, seats, seats.len() as int);
        let k = winner_count(hand, seats, n - 1) as int;
        assert(share * (k + 1) == share * k + share) by (nonlinear_arith);
    } else {
        assert(share * 0 == 0) by (nonlinear_arith);
    }
}

/// The payouts of a prefix are its refunds and its winnings.
proof fn lemma_total_payout_parts(hand: HandState, seats: Seq<PlayerSeat>, n: int)
    requires
        0 <= n <= seats.len(),
    ensures
        total_payout(hand, seats, n) == total_excess(hand, seats, n) + total_award(hand, seats, n),
    decreases n,
{
    if n > 0 {
        lemma_total_payout_parts(hand, seats, n - 1);
    }
}

/// Conservation: where there is a winner, the refunds and the winnings of
/// all seats add up to exactly the pot. The remainder of the split is part
/// of it, so no chip is made or lost.
pub proof fn lemma_payouts_conserve_pot(hand: HandState, seats: Seq<PlayerSeat>)
    requires
        winner_count(hand, seats, seats.len() as int) > 0,
    ensures
        total_payout(hand, seats, seats.len() as int) == hand.pot,
        total_excess(hand, seats, seats.len() as int) + total_award(
            hand,
            seats,
            seats.len() as int,
        ) == hand.pot,
{
    let n = seats.len() as int;
    let winners = winner_count(hand, seats, n) as int;
    let left = pot_to_award(hand, seats);
    lemma_total_payout_parts(hand, seats, n);
    lemma_total_award(hand, seats, n);
    lemma_remainder_seat(hand, seats, n);
    vstd::arithmetic::div_mod::lemma_fundamental_div_mod(left, winners);
    assert((left / winners) * winners == winners * (left / winners)) by (nonlinear_arith);
}

/// Seats whose stacks grew by their payouts hold the chips they held
/// before plus all payouts.
pub proof fn lemma_total_chips_after(
    hand: HandState,
    before: Seq<PlayerSeat>,
    after: Seq<PlayerSeat>,
    n: int,
)
    requires
        0 <= n <= before.len(),
        before.len() == after.len(),
        forall|i: int|
            0 <= i < n ==> (#[trigger] after[i]).chips == before[i].chips + payout(
                hand,
                before,
                i,
            ),
    ensures
        total_chips(after, n) == total_chips(before, n) + total_payout(hand, before, n),
    decreases n,
{
    if n > 0 {
        lemma_total_chips_after(hand, before, after, n - 1);
    }
}

/// What a winner gets is never negative where the refunds fit in the pot.
pub proof fn lemma_award_bounds(hand: HandState, seats: Seq<PlayerSeat>, i: int)
    requires
        0 <= i < seats.len(),
        total_excess(hand, seats, seats.len() as int) <= hand.pot,
    ensures
        0 <= award(hand, seats, i) <= pot_to_award(hand, seats) <= hand.pot,
{
    let n = seats.len() as int;
    let left = pot_to_award(hand, seats);
    lemma_total_excess_grows(hand, seats, 0, n);
    if is_top(hand, seats, i) {
        lemma_winner_counted(hand, seats, n, i);
        let winners = winner_count(hand, seats, n) as int;
        vstd::arithmetic::div_mod::lemma_fundamental_div_mod(left, winners);
        vstd::arithmetic::div_mod::lemma_div_pos_is_pos(left, winners);
        vstd::arithmetic::div_mod::lemma_mod_bound(left, winners);
        assert(winners * (left / winners) >= left / winners) by (nonlinear_arith)
            requires
                winners >= 1,
                left / winners >= 0,
        ;
    }
}

/// A winner among the first `n` seats is counted.
pub proof fn lemma_winner_counted(hand: HandState, seats: Seq<PlayerSeat>, n: int, i: int)
    requires
        0 <= i < n <= seats.len(),
        is_top(hand, seats, i),
    ensures
        winner_count(hand, seats, n) >= 1,
    decreases n,
{
    if i < n - 1 {
        lemma_winner_counted(hand, seats, n - 1, i);
    }
}

/// The entry of a seat in a list for `find_winners`: its seat index and its
/// seven cards.
pub open spec fn seat_entry(hand: HandState, seat: PlayerSeat) -> (u8, [u8; 7]) {
    (
        seat.seat_index,
        [
            seat.revealed_card_1,
            seat.revealed_card_2,
            hand.community_cards@[0],
            hand.community_cards@[1],
            hand.community_cards@[2],
            hand.community_cards@[3],
            hand.community_cards@[4],
        ],
    )
}

/// The entries of the contesting seats among the first `n`, in their order.
pub open spec fn contender_entries(hand: HandState, seats: Seq<PlayerSeat>, n: int) -> Seq<
    (u8, [u8; 7]),
>
    decreases n,
{
    if n <= 0 {
        Seq::empty()
    } else if contends(hand, seats[n - 1]) {
        contender_entries(hand, seats, n - 1).push(seat_entry(hand, seats[n - 1]))
    } else {
        contender_entries(hand, seats, n - 1)
    }
}

/// The seat indices of the winners among the first `n` seats, in their
/// order.
pub open spec fn winning_seats(hand: HandState, seats: Seq<PlayerSeat>, n: int) -> Seq<u8>
    decreases n,
{
    if n <= 0 {
        Seq::empty()
    } else if is_top(hand, seats, n - 1) {
        winning_seats(hand, seats, n - 1).push(seats[n - 1].seat_index)
    } else {
        winning_seats(hand, seats, n - 1)
    }
}

/// Place `k` of the entries belongs to a contesting seat among the first
/// `n`.
pub open spec fn entry_of_seat(hand: HandState, seats: Seq<PlayerSeat>, n: int, k: int) -> bool {
    exists|i: int|
        0 <= i < n && contends(hand, #[trigger] seats[i]) && contenders(hand, seats, i) == k
}

/// The entries of a prefix are as many as its contesting seats; the entry
/// of a contesting seat stands at the place that the count of contesting
/// seats before it gives, in this prefix and in every longer one; and
/// every entry is that of some contesting seat.
proof fn lemma_contender_entries(hand: HandState, seats: Seq<PlayerSeat>, n: int, m: int)
    requires
        0 <= n <= m <= seats.len(),
    ensures
        contender_entries(hand, seats, n).len() == contenders(hand, seats, n),
        contenders(hand, seats, n) <= contenders(hand, seats, m),
        forall|i: int|
            0 <= i < n && contends(hand, #[trigger] seats[i]) ==> contenders(hand, seats, i)
                < contenders(hand, seats, n) && contender_entries(hand, seats, m)[contenders(
                hand,
                seats,
                i,
            ) as int] == seat_entry(hand, seats[i]),
        forall|k: int|
            0 <= k < contenders(hand, seats, n) ==> #[trigger] entry_of_seat(hand, seats, n, k),
    decreases m - n, n,
{
    if n < m {
        lemma_contender_entries(hand, seats, n, n);
        lemma_contender_entries(hand, seats, n + 1, m);
        assert forall|i: int| 0 <= i < n && contends(hand, #[trigger] seats[i]) implies contenders(
            hand,
            seats,
            i,
        ) < contenders(hand, seats, n) && contender_entries(hand, seats, m)[contenders(
            hand,
            seats,
            i,
        ) as int] == seat_entry(hand, seats[i]) by {}
    } else if n > 0 {
        lemma_contender_entries(hand, seats, n - 1, n - 1);
        let before = contenders(hand, seats, n - 1);
        assert forall|i: int| 0 <= i < n && contends(hand, #[trigger] seats[i]) implies contenders(
            hand,
            seats,
            i,
        ) < contenders(hand, seats, n) && contender_entries(hand, seats, n)[contenders(
            hand,
            seats,
            i,
        ) as int] == seat_entry(hand, seats[i]) by {
            if i < n - 1 {
                assert(contender_entries(hand, seats, n - 1)[contenders(hand, seats, i) as int]
                    == seat_entry(hand, seats[i]));
            }
        }
        assert forall|k: int| 0 <= k < contenders(hand, seats, n) implies #[trigger] entry_of_seat(
            hand,
            seats,
            n,
            k,
        ) by {
            if k < before {
                assert(entry_of_seat(hand, seats, n - 1, k));
                let i = choose|i: int|
                    0 <= i < n - 1 && contends(hand, #[trigger] seats[i]) && contenders(
                        hand,
                        seats,
                        i,
                    ) == k;
                assert(0 <= i < n && contends(hand, seats[i]) && contenders(hand, seats, i) == k);
            } else {
                assert(contends(hand, seats[n - 1]) && contenders(hand, seats, n - 1) == k);
            }
        }
    }
}

/// The winners of a settlement with more than one seat left are exactly
/// the seats that `find_winners` returns for the entries of the contesting
/// seats, in the same order.
pub proof fn lemma_settlement_winners_are_find_winners(hand: HandState, seats: Seq<PlayerSeat>)
    requires
        hand.active_count != 1,
    ensures
        crate::state::hand_eval::winners_among(
            contender_entries(hand, seats, seats.len() as int),
            contender_entries(hand, seats, seats.len() as int).len() as int,
        ) == winning_seats(hand, seats, seats.len() as int),
{
    lemma_winners_are_found(hand, seats, seats.len() as int);
    lemma_contender_entries(hand, seats, seats.len() as int, seats.len() as int);
}

/// The winners among the first `n` seats are the seats that `find_winners`
/// names among the entries of the contesting seats of these `n`.
proof fn lemma_winners_are_found(hand: HandState, seats: Seq<PlayerSeat>, n: int)
    requires
        0 <= n <= seats.len(),
        hand.active_count != 1,
    ensures
        crate::state::hand_eval::winners_among(
            contender_entries(hand, seats, seats.len() as int),
            contenders(hand, seats, n) as int,
        ) == winning_seats(hand, seats, n),
    decreases n,
{
    let total = seats.len() as int;
    let entries = contender_entries(hand, seats, total);
    if n > 0 {
        lemma_winners_are_found(hand, seats, n - 1);
        lemma_contender_entries(hand, seats, n, total);
        lemma_contender_entries(hand, seats, n - 1, total);
        lemma_contender_entries(hand, seats, total, total);
        if contends(hand, seats[n - 1]) {
            let place = contenders(hand, seats, n - 1) as int;
            assert(entries[place] == seat_entry(hand, seats[n - 1]));
            assert(entries[place].1@ =~= seven_cards(hand, seats[n - 1]));
            let mine = seat_value(hand, seats[n - 1]);
            if is_top(hand, seats, n - 1) {
                assert forall|k: int| 0 <= k < entries.len() implies !precedes(
                    crate::state::hand_eval::seat_value(entries, place),
                    #[trigger] crate::state::hand_eval::seat_value(entries, k),
                ) by {
                    assert(entry_of_seat(hand, seats, total, k));
                    let j = choose|j: int|
                        0 <= j < total && contends(hand, #[trigger] seats[j]) && contenders(
                            hand,
                            seats,
                            j,
                        ) == k;
                    assert(entries[k] == seat_entry(hand, seats[j]));
                    assert(entries[k].1@ =~= seven_cards(hand, seats[j]));
                    assert(!precedes(mine, seat_value(hand, seats[j])));
                }
            }
            if crate::state::hand_eval::is_winner(entries, place) {
                assert forall|j: int|
                    0 <= j < seats.len() && contends(hand, seats[j]) implies !precedes(
                    mine,
                    #[trigger] seat_value(hand, seats[j]),
                ) by {
                    let k = contenders(hand, seats, j) as int;
                    assert(entries[k] == seat_entry(hand, seats[j]));
                    assert(entries[k].1@ =~= seven_cards(hand, seats[j]));
                    assert(!precedes(
                        crate::state::hand_eval::seat_value(entries, place),
                        crate::state::hand_eval::seat_value(entries, k),
                    ));
                }
            }
        }
    }
}

/// Whether the seat contests the pot.
fn seat_contends(hand_state: &HandState, seat: &PlayerSeat) -> (r: bool)
    requires
        seat.seat_index < 8,
    ensures
        r == contends(*hand_state, *seat),
{
    (seat.status == PlayerStatus::Playing || seat.status == PlayerStatus::AllIn)
        && hand_state.is_player_active(seat.seat_index)
}

/// Whether every seat is a seat of a table with `max_players` seats.
pub fn seats_in_range(seats: &Vec<PlayerSeat>, max_players: u8) -> (r: bool)
    ensures
        r == !(exists|i: int|
            0 <= i < seats@.len() && (#[trigger] seats@[i]).seat_index >= max_players),
{
    let mut i: usize = 0;
    while i < seats.len()
        invariant
            i <= seats@.len(),
            forall|j: int| 0 <= j < i ==> (#[trigger] seats@[j]).seat_index < max_players,
        decreases seats@.len() - i,
    {
        if seats[i].seat_index >= max_players {
            return false;
        }
        i += 1;
    }
    true
}

/// Whether two of the seats have the same seat index. Seats with distinct
/// indices are at most eight.
pub fn has_duplicate_seats(seats: &Vec<PlayerSeat>) -> (r: bool)
    requires
        forall|i: int| 0 <= i < seats@.len() ==> (#[trigger] seats@[i]).seat_index < 8,
    ensures
        r == duplicate_seats(seats@),
        !r ==> seats@.len() <= 8,
{
    let mut seen: u8 = 0;
    let mut i: usize = 0;
    proof {
        crate::state::seat_mask::lemma_mask_empty(0u8);
    }
    while i < seats.len()
        invariant
            i <= seats@.len(),
            forall|k: int| 0 <= k < seats@.len() ==> (#[trigger] seats@[k]).seat_index < 8,
            forall|s: u8|
                #[trigger] mask_has(seen, s) <==> exists|k: int|
                    0 <= k < i && (#[trigger] seats@[k]).seat_index == s,
            forall|a: int, b: int|
                0 <= a < b < i ==> #[trigger] seats@[a].seat_index
                    != #[trigger] seats@[b].seat_index,
            crate::state::seat_mask::mask_count(seen) == i,
        decreases seats@.len() - i,
    {
        let index = seats[i].seat_index;
        if mask_test(seen, index) {
            proof {
                let k = choose|k: int| 0 <= k < i && (#[trigger] seats@[k]).seat_index == index;
                assert(seats@[k].seat_index == seats@[i as int].seat_index);
            }
            return true;
        }
        let ghost before = seen;
        seen = mask_with(seen, index);
        proof {
            assert forall|s: u8| #[trigger] mask_has(seen, s) <==> exists|k: int|
                0 <= k < i + 1 && (#[trigger] seats@[k]).seat_index == s by {
                if mask_has(before, s) {
                    let k = choose|k: int| 0 <= k < i && (#[trigger] seats@[k]).seat_index == s;
                    assert(0 <= k < i + 1 && seats@[k].seat_index == s);
                }
                if s == index {
                    assert(seats@[i as int].seat_index == s);
                }
                if exists|k: int| 0 <= k < i + 1 && (#[trigger] seats@[k]).seat_index == s {
                    let k = choose|k: int| 0 <= k < i + 1 && (#[trigger] seats@[k]).seat_index == s;
                    if k < i {
                        assert(mask_has(before, s));
                    }
                }
            }
            assert forall|a: int, b: int| 0 <= a < b < i + 1 implies #[trigger] seats@[a].seat_index
                != #[trigger] seats@[b].seat_index by {
                if b == i {
                    if seats@[a].seat_index == index {
                        assert(mask_has(before, index));
                    }
                }
            }
        }
        i += 1;
    }
    false
}

/// Whether all five community cards are on the board.
fn is_board_complete(hand_state: &HandState) -> (r: bool)
    ensures
        r == board_complete(*hand_state),
{
    hand_state.community_cards[0] != CARD_NOT_REVEALED && hand_state.community_cards[1]
        != CARD_NOT_REVEALED && hand_state.community_cards[2] != CARD_NOT_REVEALED
        && hand_state.community_cards[3] != CARD_NOT_REVEALED && hand_state.community_cards[4]
        != CARD_NOT_REVEALED
}

/// Counts the contesting seats and finds the smallest total bet among
/// them.
fn tally_contenders(hand_state: &HandState, seats: &Vec<PlayerSeat>) -> (r: (usize, u64))
    requires
        forall|i: int| 0 <= i < seats@.len() ==> (#[trigger] seats@[i]).seat_index < 8,
    ensures
        r.0 == contenders(*hand_state, seats@, seats@.len() as int),
        r.1 == lowest_stake(*hand_state, seats@, seats@.len() as int),
{
    let mut count: usize = 0;
    let mut low: u64 = u64::MAX;
    let mut i: usize = 0;
    while i < seats.len()
        invariant
            i <= seats@.len(),
            forall|k: int| 0 <= k < seats@.len() ==> (#[trigger] seats@[k]).seat_index < 8,
            count == contenders(*hand_state, seats@, i as int),
            count <= i,
            low == lowest_stake(*hand_state, seats@, i as int),
        decreases seats@.len() - i,
    {
        let seat = seats[i];
        if seat_contends(hand_state, &seat) {
            count += 1;
            if seat.total_bet_this_hand < low {
                low = seat.total_bet_this_hand;
            }
        }
        i += 1;
    }
    (count, low)
}

/// Works out the refund of every seat and their total; `None` where the
/// total does not fit in 64 bits.
fn compute_refunds(hand_state: &HandState, seats: &Vec<PlayerSeat>, count: usize, low: u64) -> (r:
    Option<(Vec<u64>, u64)>)
    requires
        forall|i: int| 0 <= i < seats@.len() ==> (#[trigger] seats@[i]).seat_index < 8,
        count == contenders(*hand_state, seats@, seats@.len() as int),
        low == lowest_stake(*hand_state, seats@, seats@.len() as int),
    ensures
        match r {
            Some((refunds, total)) => {
                &&& refunds@.len() == seats@.len()
                &&& forall|i: int|
                    0 <= i < seats@.len() ==> #[trigger] refunds@[i] == excess(
                        *hand_state,
                        seats@,
                        i,
                    )
                &&& total == total_excess(*hand_state, seats@, seats@.len() as int)
            },
            None => total_excess(*hand_state, seats@, seats@.len() as int) > u64::MAX,
        },
{
    let mut refunds: Vec<u64> = Vec::new();
    let mut total: u64 = 0;
    let mut i: usize = 0;
    while i < seats.len()
        invariant
            i <= seats@.len(),
            forall|k: int| 0 <= k < seats@.len() ==> (#[trigger] seats@[k]).seat_index < 8,
            count == contenders(*hand_state, seats@, seats@.len() as int),
            low == lowest_stake(*hand_state, seats@, seats@.len() as int),
            refunds@.len() == i,
            forall|k: int| 0 <= k < i ==> #[trigger] refunds@[k] == excess(*hand_state, seats@, k),
            total == total_excess(*hand_state, seats@, i as int),
        decreases seats@.len() - i,
    {
        let seat = seats[i];
        proof {
            lemma_excess_bounds(*hand_state, seats@, i as int);
        }
        let refund = if count >= 2 && seat_contends(hand_state, &seat) {
            seat.total_bet_this_hand - low
        } else {
            0
        };
        match total.checked_add(refund) {
            Some(sum) => {
                total = sum;
            },
            None => {
                proof {
                    lemma_total_excess_grows(
                        *hand_state,
                        seats@,
                        i as int + 1,
                        seats@.len() as int,
                    );
                }
                return None;
            },
        }
        refunds.push(refund);
        i += 1;
    }
    Some((refunds, total))
}

/// Whether every contesting seat has shown its cards.
fn all_revealed(hand_state: &HandState, seats: &Vec<PlayerSeat>) -> (r: bool)
    requires
        forall|i: int| 0 <= i < seats@.len() ==> (#[trigger] seats@[i]).seat_index < 8,
    ensures
        r == !(exists|i: int|
            0 <= i < seats@.len() && contends(*hand_state, #[trigger] seats@[i])
                && !seats@[i].cards_revealed),
{
    let mut i: usize = 0;
    while i < seats.len()
        invariant
            i <= seats@.len(),
            forall|k: int| 0 <= k < seats@.len() ==> (#[trigger] seats@[k]).seat_index < 8,
            forall|k: int|
                0 <= k < i && contends(*hand_state, #[trigger] seats@[k])
                    ==> seats@[k].cards_revealed,
        decreases seats@.len() - i,
    {
        let seat = seats[i];
        if seat_contends(hand_state, &seat) && !seat.cards_revealed {
            return false;
        }
        i += 1;
    }
    true
}

/// Evaluates the best hand of a seat from its shown hole cards and the
/// board.
fn evaluate_seat(hand_state: &HandState, seat: &PlayerSeat) -> (eval: EvaluatedHand)
    ensures
        eval@ == seat_value(*hand_state, *seat),
{
    let cards: [u8; 7] = [
        seat.revealed_card_1,
        seat.revealed_card_2,
        hand_state.community_cards[0],
        hand_state.community_cards[1],
        hand_state.community_cards[2],
        hand_state.community_cards[3],
        hand_state.community_cards[4],
    ];
    assert(cards@ =~= seven_cards(*hand_state, *seat));
    evaluate_hand(&cards)
}

/// Marks the winners: with one active seat the seat that contests, else
/// every contesting seat whose best hand no other contesting seat beats.
fn find_top_seats(hand_state: &HandState, seats: &Vec<PlayerSeat>) -> (tops: Vec<bool>)
    requires
        forall|i: int| 0 <= i < seats@.len() ==> (#[trigger] seats@[i]).seat_index < 8,
    ensures
        tops@.len() == seats@.len(),
        forall|i: int|
            0 <= i < seats@.len() ==> #[trigger] tops@[i] == is_top(*hand_state, seats@, i),
{
    let n = seats.len();
    let mut tops: Vec<bool> = Vec::new();
    if hand_state.active_count == 1 {
        // One seat left: it wins without an evaluation.
        let mut i: usize = 0;
        while i < n
            invariant
                i <= n,
                n == seats@.len(),
                hand_state.active_count == 1,
                forall|k: int| 0 <= k < seats@.len() ==> (#[trigger] seats@[k]).seat_index < 8,
                tops@.len() == i,
                forall|k: int|
                    0 <= k < i ==> #[trigger] tops@[k] == is_top(*hand_state, seats@, k),
            decreases n - i,
        {
            let seat = seats[i];
            tops.push(seat_contends(hand_state, &seat));
            i += 1;
        }
        return tops;
    }
    // First pass: evaluate every seat and find the highest hand among the
    // contesting ones.
    let mut evals: Vec<EvaluatedHand> = Vec::new();
    let mut best = EvaluatedHand { rank: HandRank::HighCard, kickers: [0, 0, 0, 0, 0] };
    let mut found = false;
    let ghost mut at: int = 0;
    let mut i: usize = 0;
    while i < n
        invariant
            i <= n,
            n == seats@.len(),
            forall|k: int| 0 <= k < seats@.len() ==> (#[trigger] seats@[k]).seat_index < 8,
            evals@.len() == i,
            forall|k: int|
                0 <= k < i ==> (#[trigger] evals@[k])@ == seat_value(*hand_state, seats@[k]),
            found ==> 0 <= at < i && contends(*hand_state, seats@[at]) && best@ == seat_value(
                *hand_state,
                seats@[at],
            ),
            forall|k: int|
                0 <= k < i && contends(*hand_state, seats@[k]) ==> found && hand_score(
                    #[trigger] seat_value(*hand_state, seats@[k]),
                ) <= hand_score(best@),
        decreases n - i,
    {
        let seat = seats[i];
        let eval = evaluate_seat(hand_state, &seat);
        proof {
            lemma_precedes_is_score_order(best@, eval@);
        }
        if seat_contends(hand_state, &seat) {
            if !found || eval.beats(&best) {
                best = eval;
                found = true;
                proof {
                    at = i as int;
                }
            }
        }
        evals.push(eval);
        i += 1;
    }
    // Second pass: a contesting seat that the highest hand does not beat
    // wins.
    let mut k: usize = 0;
    while k < n
        invariant
            k <= n,
            n == seats@.len(),
            hand_state.active_count != 1,
            forall|j: int| 0 <= j < seats@.len() ==> (#[trigger] seats@[j]).seat_index < 8,
            evals@.len() == n,
            forall|j: int|
                0 <= j < n ==> (#[trigger] evals@[j])@ == seat_value(*hand_state, seats@[j]),
            found ==> 0 <= at < n && contends(*hand_state, seats@[at]) && best@ == seat_value(
                *hand_state,
                seats@[at],
            ),
            forall|j: int|
                0 <= j < n && contends(*hand_state, seats@[j]) ==> found && hand_score(
                    #[trigger] seat_value(*hand_state, seats@[j]),
                ) <= hand_score(best@),
            tops@.len() == k,
            forall|j: int| 0 <= j < k ==> #[trigger] tops@[j] == is_top(*hand_state, seats@, j),
        decreases n - k,
    {
        let seat = seats[k];
        let top = seat_contends(hand_state, &seat) && !best.beats(&evals[k]);
        proof {
            let mine = seat_value(*hand_state, seats@[k as int]);
            lemma_precedes_is_score_order(mine, best@);
            if top {
                assert forall|j: int|
                    0 <= j < seats@.len() && contends(*hand_state, seats@[j]) implies !precedes(
                    mine,
                    #[trigger] seat_value(*hand_state, seats@[j]),
                ) by {
                    lemma_precedes_is_score_order(mine, seat_value(*hand_state, seats@[j]));
                }
            } else if contends(*hand_state, seats@[k as int]) {
                assert(precedes(mine, seat_value(*hand_state, seats@[at])));
            }
        }
        tops.push(top);
        k += 1;
    }
    tops
}

/// Counts the winners and finds the one with the lowest seat index.
fn count_winners(hand_state: &HandState, seats: &Vec<PlayerSeat>, tops: &Vec<bool>) -> (r: (
    usize,
    usize,
))
    requires
        tops@.len() == seats@.len(),
        forall|i: int|
            0 <= i < seats@.len() ==> #[trigger] tops@[i] == is_top(*hand_state, seats@, i),
    ensures
        r.0 == winner_count(*hand_state, seats@, seats@.len() as int),
        r.0 > 0 ==> r.1 == remainder_seat(*hand_state, seats@, seats@.len() as int),
        r.0 == 0 ==> remainder_seat(*hand_state, seats@, seats@.len() as int) == -1,
{
    let n = seats.len();
    let mut winners: usize = 0;
    let mut first: usize = 0;
    let mut i: usize = 0;
    while i < n
        invariant
            i <= n,
            n == seats@.len(),
            tops@.len() == n,
            forall|k: int| 0 <= k < n ==> #[trigger] tops@[k] == is_top(*hand_state, seats@, k),
            winners == winner_count(*hand_state, seats@, i as int),
            winners <= i,
            winners > 0 ==> first == remainder_seat(*hand_state, seats@, i as int),
            winners == 0 ==> remainder_seat(*hand_state, seats@, i as int) == -1,
        decreases n - i,
    {
        proof {
            lemma_remainder_seat(*hand_state, seats@, i as int);
        }
        if tops[i] {
            if winners == 0 || seats[i].seat_index < seats[first].seat_index {
                first = i;
            }
            winners += 1;
        }
        i += 1;
    }
    (winners, first)
}

/// The entry of a seat in the completion record: its cards where it has
/// shown them, the rank of its hand where it was shown at a complete board
/// by a seat that did not fold, its winnings and its bets.
pub open spec fn seat_result(hand: HandState, seat: PlayerSeat, won: int) -> PlayerHandResult {
    PlayerHandResult {
        player: seat.player,
        seat_index: seat.seat_index,
        hole_card_1: if seat.cards_revealed {
            seat.revealed_card_1
        } else {
            CARD_NOT_REVEALED
        },
        hole_card_2: if seat.cards_revealed {
            seat.revealed_card_2
        } else {
            CARD_NOT_REVEALED
        },
        hand_rank: if seat.cards_revealed && seat.status != PlayerStatus::Folded && board_complete(
            hand,
        ) {
            rank_value(seat_value(hand, seat).rank) as u8
        } else {
            255
        },
        chips_won: won as u64,
        chips_bet: seat.total_bet_this_hand,
        folded: seat.status == PlayerStatus::Folded,
        all_in: seat.status == PlayerStatus::AllIn,
    }
}

/// `record` is the completion record of the hand: it names table, hand and
/// time, shows the board and the pot that the winners shared, and holds the
/// entries of the first six seats in their order; the other entries are
/// zero.
pub open spec fn is_completion_record(
    record: HandCompleted,
    table: Table,
    hand: HandState,
    seats: Seq<PlayerSeat>,
    now: i64,
) -> bool {
    let count = if seats.len() < 6 {
        seats.len() as int
    } else {
        6
    };
    &&& record.table_id == table.table_id
    &&& record.hand_number == hand.hand_number
    &&& record.timestamp == now
    &&& record.community_cards == hand.community_cards
    &&& record.total_pot == pot_to_award(hand, seats)
    &&& record.player_count == count
    &&& record.results_count == count
    &&& forall|k: int|
        0 <= k < count ==> #[trigger] record.results@[k] == seat_result(
            hand,
            seats[k],
            award(hand, seats, k),
        )
    &&& forall|k: int| count <= k < 6 ==> (#[trigger] record.results@[k]).is_empty()
}

/// Works out what every seat wins and receives; `None` where a stack
/// would overflow.
fn compute_payouts(
    hand_state: &HandState,
    seats: &Vec<PlayerSeat>,
    refunds: &Vec<u64>,
    total_refund: u64,
    tops: &Vec<bool>,
    winners: usize,
    first: usize,
) -> (r: Option<(Vec<u64>, Vec<u64>)>)
    requires
        refunds@.len() == seats@.len(),
        forall|i: int|
            0 <= i < seats@.len() ==> #[trigger] refunds@[i] == excess(*hand_state, seats@, i),
        total_refund == total_excess(*hand_state, seats@, seats@.len() as int),
        total_refund <= hand_state.pot,
        tops@.len() == seats@.len(),
        forall|i: int|
            0 <= i < seats@.len() ==> #[trigger] tops@[i] == is_top(*hand_state, seats@, i),
        winners == winner_count(*hand_state, seats@, seats@.len() as int),
        winners > 0,
        first == remainder_seat(*hand_state, seats@, seats@.len() as int),
    ensures
        match r {
            Some((awards, payouts)) => {
                &&& awards@.len() == seats@.len()
                &&& payouts@.len() == seats@.len()
                &&& forall|i: int|
                    0 <= i < seats@.len() ==> #[trigger] awards@[i] == award(
                        *hand_state,
                        seats@,
                        i,
                    )
                &&& forall|i: int|
                    0 <= i < seats@.len() ==> #[trigger] payouts@[i] == payout(
                        *hand_state,
                        seats@,
                        i,
                    )
                &&& forall|i: int|
                    0 <= i < seats@.len() ==> (#[trigger] seats@[i]).chips + payout(
                        *hand_state,
                        seats@,
                        i,
                    ) <= u64::MAX
            },
            None => exists|i: int|
                0 <= i < seats@.len() && (#[trigger] seats@[i]).chips + payout(
                    *hand_state,
                    seats@,
                    i,
                ) > u64::MAX,
        },
{
    let n = seats.len();
    let pot = hand_state.pot - total_refund;
    let share = pot / (winners as u64);
    let remainder = pot % (winners as u64);
    let mut awards: Vec<u64> = Vec::new();
    let mut payouts: Vec<u64> = Vec::new();
    let mut i: usize = 0;
    while i < n
        invariant
            i <= n,
            n == seats@.len(),
            refunds@.len() == n,
            forall|k: int|
                0 <= k < n ==> #[trigger] refunds@[k] == excess(*hand_state, seats@, k),
            total_refund == total_excess(*hand_state, seats@, n as int),
            total_refund <= hand_state.pot,
            tops@.len() == n,
            forall|k: int| 0 <= k < n ==> #[trigger] tops@[k] == is_top(*hand_state, seats@, k),
            winners == winner_count(*hand_state, seats@, n as int),
            winners > 0,
            first == remainder_seat(*hand_state, seats@, n as int),
            pot == pot_to_award(*hand_state, seats@),
            share == pot / (winners as u64),
            remainder == pot % (winners as u64),
            awards@.len() == i,
            payouts@.len() == i,
            forall|k: int| 0 <= k < i ==> #[trigger] awards@[k] == award(*hand_state, seats@, k),
            forall|k: int|
                0 <= k < i ==> #[trigger] payouts@[k] == payout(*hand_state, seats@, k),
            forall|k: int|
                0 <= k < i ==> (#[trigger] seats@[k]).chips + payout(*hand_state, seats@, k)
                    <= u64::MAX,
        decreases n - i,
    {
        proof {
            lemma_award_bounds(*hand_state, seats@, i as int);
        }
        let winnings = if tops[i] {
            // The winner with the lowest seat index takes the remainder.
            if i == first {
                share + remainder
            } else {
                share
            }
        } else {
            0
        };
        let paid = match refunds[i].checked_add(winnings) {
            Some(paid) => paid,
            None => {
                return None;
            },
        };
        if seats[i].chips.checked_add(paid).is_none() {
            return None;
        }
        awards.push(winnings);
        payouts.push(paid);
        i += 1;
    }
    Some((awards, payouts))
}

/// Puts the completion record together.
fn build_record(
    table: &Table,
    hand_state: &HandState,
    seats: &Vec<PlayerSeat>,
    awards: &Vec<u64>,
    pot: u64,
    now: i64,
) -> (record: HandCompleted)
    requires
        awards@.len() == seats@.len(),
        forall|i: int|
            0 <= i < seats@.len() ==> #[trigger] awards@[i] == award(*hand_state, seats@, i),
        pot == pot_to_award(*hand_state, seats@),
    ensures
        is_completion_record(record, *table, *hand_state, seats@, now),
{
    let zero = PlayerHandResult::default();
    let mut results: [PlayerHandResult; 6] = [zero; 6];
    let board = is_board_complete(hand_state);
    let mut count: u8 = 0;
    while (count as usize) < seats.len() && count < 6
        invariant
            count <= 6,
            count <= seats@.len(),
            awards@.len() == seats@.len(),
            forall|i: int|
                0 <= i < seats@.len() ==> #[trigger] awards@[i] == award(*hand_state, seats@, i),
            board == board_complete(*hand_state),
            forall|k: int|
                0 <= k < count ==> #[trigger] results@[k] == seat_result(
                    *hand_state,
                    seats@[k],
                    award(*hand_state, seats@, k),
                ),
            forall|k: int| count <= k < 6 ==> (#[trigger] results@[k]).is_empty(),
        decreases 6 - count,
    {
        let seat = seats[count as usize];
        let shown = seat.cards_revealed;
        let hand_rank = if shown && seat.status != PlayerStatus::Folded && board {
            evaluate_seat(hand_state, &seat).rank.to_u8()
        } else {
            255
        };
        results[count as usize] = PlayerHandResult {
            player: seat.player,
            seat_index: seat.seat_index,
            hole_card_1: if shown {
                seat.revealed_card_1
            } else {
                CARD_NOT_REVEALED
            },
            hole_card_2: if shown {
                seat.revealed_card_2
            } else {
                CARD_NOT_REVEALED
            },
            hand_rank,
            chips_won: awards[count as usize],
            chips_bet: seat.total_bet_this_hand,
            folded: seat.status == PlayerStatus::Folded,
            all_in: seat.status == PlayerStatus::AllIn,
        };
        count += 1;
    }
    HandCompleted {
        table_id: table.table_id,
        hand_number: hand_state.hand_number,
        timestamp: now,
        community_cards: hand_state.community_cards,
        total_pot: pot,
        player_count: count,
        results,
        results_count: count,
    }
}

/// Checks that a settlement can be taken up.
fn check_entry(
    table: &Table,
    hand_state: &HandState,
    seats: &Vec<PlayerSeat>,
    caller_is_authority: bool,
    now: i64,
) -> (r: Result<(usize, u64), HiddenHandError>)
    requires
        table.max_players <= 8,
    ensures
        match r {
            Ok((count, low)) => {
                &&& entry_rejection(*table, *hand_state, seats@, caller_is_authority, now) is None
                &&& forall|i: int| 0 <= i < seats@.len() ==> (#[trigger] seats@[i]).seat_index < 8
                &&& count == contenders(*hand_state, seats@, seats@.len() as int)
                &&& low == lowest_stake(*hand_state, seats@, seats@.len() as int)
            },
            Err(e) => entry_rejection(*table, *hand_state, seats@, caller_is_authority, now)
                == Some(e),
        },
{
    // The table operator may settle at once, anyone else after the window.
    if !caller_is_authority && !has_elapsed(
        now,
        hand_state.last_action_time,
        ACTION_TIMEOUT_SECONDS,
    ) {
        return Err(HiddenHandError::UnauthorizedAuthority);
    }
    if !seats_in_range(seats, table.max_players) {
        return Err(HiddenHandError::InvalidSeatIndex);
    }
    if has_duplicate_seats(seats) {
        return Err(HiddenHandError::DuplicateAccount);
    }
    if !(hand_state.phase == GamePhase::Showdown || (hand_state.phase == GamePhase::Settled
        && hand_state.active_count == 1)) {
        return Err(HiddenHandError::InvalidPhase);
    }
    if !(is_board_complete(hand_state) || hand_state.active_count == 1) {
        return Err(HiddenHandError::InvalidPhase);
    }
    let (count, low) = tally_contenders(hand_state, seats);
    if count != hand_state.active_count as usize {
        return Err(HiddenHandError::ShowdownRequiresPlayers);
    }
    Ok((count, low))
}

/// Works out the payment of the pot: what every seat wins and what it
/// receives in all.
fn plan_payment(hand_state: &HandState, seats: &Vec<PlayerSeat>, count: usize, low: u64) -> (r:
    Result<(Vec<u64>, Vec<u64>, u64), HiddenHandError>)
    requires
        forall|i: int| 0 <= i < seats@.len() ==> (#[trigger] seats@[i]).seat_index < 8,
        count == contenders(*hand_state, seats@, seats@.len() as int),
        low == lowest_stake(*hand_state, seats@, seats@.len() as int),
    ensures
        match r {
            Ok((awards, payouts, pot)) => {
                &&& payment_rejection(*hand_state, seats@) is None
                &&& pot == pot_to_award(*hand_state, seats@)
                &&& awards@.len() == seats@.len()
                &&& payouts@.len() == seats@.len()
                &&& forall|i: int|
                    0 <= i < seats@.len() ==> #[trigger] awards@[i] == award(
                        *hand_state,
                        seats@,
                        i,
                    )
                &&& forall|i: int|
                    0 <= i < seats@.len() ==> #[trigger] payouts@[i] == payout(
                        *hand_state,
                        seats@,
                        i,
                    )
                &&& forall|i: int|
                    0 <= i < seats@.len() ==> (#[trigger] seats@[i]).chips + payout(
                        *hand_state,
                        seats@,
                        i,
                    ) <= u64::MAX
            },
            Err(e) => payment_rejection(*hand_state, seats@) == Some(e),
        },
{
    // Bets that nobody could match go back to their seats.
    let (refunds, total_refund) = match compute_refunds(hand_state, seats, count, low) {
        Some(found) => found,
        None => {
            return Err(HiddenHandError::Overflow);
        },
    };
    if total_refund > hand_state.pot {
        return Err(HiddenHandError::Overflow);
    }
    if hand_state.active_count > 1 && !all_revealed(hand_state, seats) {
        return Err(HiddenHandError::PlayersNotRevealed);
    }
    let tops = find_top_seats(hand_state, seats);
    let (winners, first) = count_winners(hand_state, seats, &tops);
    if winners == 0 {
        return Err(HiddenHandError::InvalidPhase);
    }
    match compute_payouts(hand_state, seats, &refunds, total_refund, &tops, winners, first) {
        Some((awards, payouts)) => Ok((awards, payouts, hand_state.pot - total_refund)),
        None => Err(HiddenHandError::Overflow),
    }
}

/// Pays every seat and resets it for the next hand.
fn pay_and_reset(seats: &mut Vec<PlayerSeat>, payouts: &Vec<u64>)
    requires
        payouts@.len() == old(seats)@.len(),
        forall|k: int|
            0 <= k < old(seats)@.len() ==> (#[trigger] old(seats)@[k]).chips + payouts@[k]
                <= u64::MAX,
    ensures
        final(seats)@.len() == old(seats)@.len(),
        forall|k: int|
            0 <= k < old(seats)@.len() ==> #[trigger] final(seats)@[k] == settled_seat(
                old(seats)@[k],
                payouts@[k] as int,
            ),
{
    let n = seats.len();
    let mut i: usize = 0;
    while i < n
        invariant
            i <= n,
            n == old(seats)@.len(),
            seats@.len() == n,
            payouts@.len() == n,
            forall|k: int|
                0 <= k < n ==> (#[trigger] old(seats)@[k]).chips + payouts@[k] <= u64::MAX,
            forall|k: int|
                0 <= k < i ==> #[trigger] seats@[k] == settled_seat(
                    old(seats)@[k],
                    payouts@[k] as int,
                ),
            forall|k: int| i <= k < n ==> #[trigger] seats@[k] == old(seats)@[k],
        decreases n - i,
    {
        let mut seat = seats[i];
        seat.chips = seat.chips + payouts[i];
        seat.status = PlayerStatus::Sitting;
        seat.current_bet = 0;
        seat.total_bet_this_hand = 0;
        seat.hole_card_1 = 255;
        seat.hole_card_2 = 255;
        seat.revealed_card_1 = CARD_NOT_REVEALED;
        seat.revealed_card_2 = CARD_NOT_REVEALED;
        seat.cards_revealed = false;
        seat.has_acted = false;
        seats.set(i, seat);
        i += 1;
    }
}

/// Settles a hand. Anyone may ask for this; a caller other than the table
/// operator has to wait for the action window to pass.
///
/// Every bet that exceeds the smallest total bet among the contesting
/// seats goes back to its seat. With one seat left that seat takes the
/// rest of the pot; otherwise the contesting seats with the highest hand
/// share it equally and the one with the lowest seat index takes the
/// remainder. Every seat is reset for the next hand, the hand is settled
/// with an empty pot, and the table waits for the next hand. The refunds
/// and winnings add up to exactly the pot. A rejected settlement changes
/// nothing.
pub fn handler(
    table: &mut Table,
    hand_state: &mut HandState,
    seats: &mut Vec<PlayerSeat>,
    caller_is_authority: bool,
    now: i64,
) -> (r: Result<HandCompleted, HiddenHandError>)
    requires
        old(hand_state).wf(old(table).max_players),
    ensures
        match r {
            Ok(record) => {
                &&& rejection(*old(table), *old(hand_state), old(seats)@, caller_is_authority, now)
                    is None
                &&& final(seats)@.len() == old(seats)@.len()
                &&& forall|i: int|
                    0 <= i < old(seats)@.len() ==> #[trigger] final(seats)@[i] == settled_seat(
                        old(seats)@[i],
                        payout(*old(hand_state), old(seats)@, i),
                    )
                &&& *final(hand_state) == (HandState {
                    phase: GamePhase::Settled,
                    pot: 0,
                    ..*old(hand_state)
                })
                &&& *final(table) == (Table {
                    status: TableStatus::Waiting,
                    last_ready_time: now,
                    ..*old(table)
                })
                &&& is_completion_record(record, *old(table), *old(hand_state), old(seats)@, now)
            },
            Err(e) => {
                &&& rejection(*old(table), *old(hand_state), old(seats)@, caller_is_authority, now)
                    == Some(e)
                &&& *final(table) == *old(table)
                &&& *final(hand_state) == *old(hand_state)
                &&& final(seats)@ == old(seats)@
            },
        },
        r is Ok ==> total_payout(*old(hand_state), old(seats)@, old(seats)@.len() as int) == old(
            hand_state,
        ).pot,
        r is Ok ==> total_chips(final(seats)@, old(seats)@.len() as int) == total_chips(
            old(seats)@,
            old(seats)@.len() as int,
        ) + old(hand_state).pot,
        r is Ok ==> final(hand_state).wf(old(table).max_players),
{
    let (count, low) = match check_entry(table, hand_state, seats, caller_is_authority, now) {
        Ok(found) => found,
        Err(e) => {
            return Err(e);
        },
    };
    let (awards, payouts, pot) = match plan_payment(hand_state, seats, count, low) {
        Ok(found) => found,
        Err(e) => {
            return Err(e);
        },
    };
    let record = build_record(table, hand_state, seats, &awards, pot, now);
    pay_and_reset(seats, &payouts);
    hand_state.phase = GamePhase::Settled;
    hand_state.pot = 0;
    table.status = TableStatus::Waiting;
    table.last_ready_time = now;
    proof {
        lemma_payouts_conserve_pot(*old(hand_state), old(seats)@);
        lemma_total_chips_after(*old(hand_state), old(seats)@, seats@, seats@.len() as int);
    }
    Ok(record)
}

} // verus!
