use hiddenhand::error::HiddenHandError;
use hiddenhand::events::HandCompleted;
use hiddenhand::instructions::player_action::Action;
use hiddenhand::instructions::{
    deal_cards, player_action, reveal_cards, showdown, start_hand, timeout_player, timeout_reveal,
};
use hiddenhand::state::deck::DeckState;
use hiddenhand::state::hand::{GamePhase, HandState};
use hiddenhand::state::hand_eval::{evaluate_hand, find_winners, EvaluatedHand, HandRank};
use hiddenhand::state::player::{PlayerSeat, PlayerStatus};
use hiddenhand::state::table::{Table, TableStatus};
use std::cmp::Ordering;

fn c(rank: u8, suit: u8) -> u8 {
    suit * 13 + rank
}

fn new_seat(seat_index: u8, chips: u64) -> PlayerSeat {
    PlayerSeat {
        table: [7u8; 32],
        player: [seat_index + 1; 32],
        seat_index,
        chips,
        current_bet: 0,
        total_bet_this_hand: 0,
        hole_card_1: 0,
        hole_card_2: 0,
        revealed_card_1: 255,
        revealed_card_2: 255,
        cards_revealed: false,
        status: PlayerStatus::Sitting,
        has_acted: false,
        bump: 0,
    }
}

fn new_table(max_players: u8, occupied: &[u8]) -> Table {
    let mut table = Table {
        authority: [9u8; 32],
        table_id: [7u8; 32],
        small_blind: 10,
        big_blind: 20,
        min_buy_in: 200,
        max_buy_in: 2000,
        max_players,
        current_players: 0,
        status: TableStatus::Waiting,
        hand_number: 0,
        occupied_seats: 0,
        dealer_position: 0,
        last_ready_time: 0,
        bump: 0,
    };
    for seat in occupied {
        table.occupy_seat(*seat);
    }
    table
}

fn shuffled(deck: &mut DeckState, cards: &[u8]) {
    for (i, card) in cards.iter().enumerate() {
        deck.cards[i] = u128::from(*card);
    }
    deck.is_shuffled = true;
}

/// A hand at showdown with a full board, for settlement tests.
fn showdown_hand(board: [u8; 5], active: u8, active_count: u8, pot: u64) -> HandState {
    HandState {
        table: [7u8; 32],
        hand_number: 5,
        phase: GamePhase::Showdown,
        pot,
        current_bet: 0,
        min_raise: 20,
        dealer_position: 0,
        action_on: 0,
        community_cards: board,
        community_revealed: 5,
        active_players: active,
        acted_this_round: 0,
        active_count,
        all_in_players: 0,
        last_action_time: 1000,
        hand_start_time: 900,
        bump: 0,
    }
}

fn shown_seat(seat_index: u8, chips: u64, bet: u64, card1: u8, card2: u8) -> PlayerSeat {
    let mut seat = new_seat(seat_index, chips);
    seat.status = PlayerStatus::Playing;
    seat.total_bet_this_hand = bet;
    seat.current_bet = bet;
    seat.revealed_card_1 = card1;
    seat.revealed_card_2 = card2;
    seat.cards_revealed = true;
    seat
}

/// Three players, blinds 10 and 20, stacks of 1000, dealt and ready to bet.
fn three_handed() -> (Table, HandState, DeckState, Vec<PlayerSeat>) {
    let mut table = new_table(6, &[0, 1, 2]);
    let (mut hand, mut deck) = start_hand::handler(&mut table, 1000).unwrap();
    shuffled(
        &mut deck,
        &[
            c(0, 0),
            c(5, 1),
            c(7, 2),
            c(9, 3),
            c(1, 1),
            c(11, 0),
            c(11, 1),
            c(12, 0),
            c(12, 1),
            c(3, 2),
            c(4, 3),
        ],
    );
    let mut seats = vec![new_seat(0, 1000), new_seat(1, 1000), new_seat(2, 1000)];
    deal_cards::handler(&table, &mut hand, &mut deck, &mut seats, true, 1001).unwrap();
    (table, hand, deck, seats)
}

#[test]
fn start_hand_moves_the_button_and_sets_up_the_hand() {
    let mut table = new_table(6, &[0, 1, 2]);
    let (hand, deck) = start_hand::handler(&mut table, 1000).unwrap();
    assert_eq!(table.hand_number, 1);
    assert_eq!(table.status, TableStatus::Playing);
    assert_eq!(table.dealer_position, 1);
    assert_eq!(hand.hand_number, 1);
    assert_eq!(hand.table, [7u8; 32]);
    assert_eq!(hand.phase, GamePhase::Dealing);
    assert_eq!(hand.pot, 0);
    assert_eq!(hand.current_bet, 20);
    assert_eq!(hand.min_raise, 20);
    assert_eq!(hand.dealer_position, 1);
    assert_eq!(hand.action_on, 1);
    assert_eq!(hand.community_cards, [255; 5]);
    assert_eq!(hand.community_revealed, 0);
    assert_eq!(hand.active_players, 0b111);
    assert_eq!(hand.active_count, 3);
    assert_eq!(hand.acted_this_round, 0);
    assert_eq!(hand.all_in_players, 0);
    assert_eq!(hand.last_action_time, 1000);
    assert_eq!(hand.hand_start_time, 1000);
    assert_eq!(deck.deal_index, 0);
    assert!(!deck.is_shuffled);
    assert!(!deck.seed_received);
    assert_eq!(deck.cards, [0u128; 52]);
}

#[test]
fn start_hand_rejections() {
    let mut lonely = new_table(6, &[3]);
    let before = lonely;
    assert_eq!(start_hand::handler(&mut lonely, 5).unwrap_err(), HiddenHandError::NotEnoughPlayers);
    assert_eq!(lonely.hand_number, before.hand_number);
    assert_eq!(lonely.status, TableStatus::Waiting);

    let mut busy = new_table(6, &[0, 1]);
    busy.status = TableStatus::Playing;
    assert_eq!(
        start_hand::handler(&mut busy, 5).unwrap_err(),
        HiddenHandError::HandAlreadyInProgress
    );

    let mut worn = new_table(6, &[0, 1]);
    worn.hand_number = u64::MAX;
    assert_eq!(start_hand::handler(&mut worn, 5).unwrap_err(), HiddenHandError::Overflow);
    assert_eq!(worn.hand_number, u64::MAX);
    assert_eq!(worn.status, TableStatus::Waiting);
}

#[test]
fn deal_posts_blinds_and_opens_preflop() {
    let (_table, hand, deck, seats) = three_handed();
    assert_eq!(hand.phase, GamePhase::PreFlop);
    assert_eq!(hand.pot, 30);
    assert_eq!(hand.current_bet, 20);
    assert_eq!(hand.action_on, 1);
    assert_eq!(hand.active_players, 0b111);
    assert_eq!(hand.active_count, 3);
    assert_eq!(hand.all_in_players, 0);
    assert_eq!(hand.acted_this_round, 0);
    assert_eq!(hand.community_cards, [255; 5]);
    assert_eq!(hand.last_action_time, 1001);
    assert_eq!(deck.deal_index, 11);
    // Seat 2 is the small blind, seat 0 the big blind.
    assert_eq!(seats[0].chips, 980);
    assert_eq!(seats[0].current_bet, 20);
    assert_eq!(seats[0].total_bet_this_hand, 20);
    assert_eq!(seats[1].chips, 1000);
    assert_eq!(seats[1].current_bet, 0);
    assert_eq!(seats[2].chips, 990);
    assert_eq!(seats[2].current_bet, 10);
    assert_eq!(seats[2].total_bet_this_hand, 10);
    for seat in &seats {
        assert_eq!(seat.status, PlayerStatus::Playing);
        assert!(!seat.has_acted);
        assert!(!seat.cards_revealed);
    }
    assert_eq!(seats[0].hole_card_1, u128::from(c(11, 0)));
    assert_eq!(seats[0].hole_card_2, u128::from(c(11, 1)));
    assert_eq!(seats[1].hole_card_1, u128::from(c(12, 0)));
    assert_eq!(seats[1].hole_card_2, u128::from(c(12, 1)));
    assert_eq!(seats[2].hole_card_1, u128::from(c(3, 2)));
    assert_eq!(seats[2].hole_card_2, u128::from(c(4, 3)));
}

#[test]
fn deal_sits_out_a_seat_without_chips() {
    let mut table = new_table(6, &[0, 2, 4]);
    let (mut hand, mut deck) = start_hand::handler(&mut table, 1000).unwrap();
    assert_eq!(table.dealer_position, 2);
    shuffled(&mut deck, &[1, 2, 3, 4, 5, 6, 7, 8, 9, 10, 11]);
    let mut seats = vec![new_seat(4, 5), new_seat(0, 0), new_seat(2, 300)];
    deal_cards::handler(&table, &mut hand, &mut deck, &mut seats, true, 1001).unwrap();
    // Button at 2: seat 4 owes the small blind of 10 and has only 5;
    // seat 0 owes the big blind and sits out.
    assert_eq!(seats[0].chips, 0);
    assert_eq!(seats[0].current_bet, 5);
    assert_eq!(seats[0].status, PlayerStatus::Playing);
    assert_eq!(seats[0].hole_card_1, 6);
    assert_eq!(seats[0].hole_card_2, 7);
    assert_eq!(seats[1].status, PlayerStatus::Sitting);
    assert_eq!(seats[1].hole_card_1, 0);
    assert_eq!(seats[2].chips, 300);
    assert_eq!(seats[2].hole_card_1, 8);
    assert_eq!(seats[2].hole_card_2, 9);
    assert_eq!(hand.pot, 5);
    assert_eq!(hand.active_players, 0b10100);
    assert_eq!(hand.active_count, 2);
    assert_eq!(hand.action_on, 2);
    assert_eq!(deck.deal_index, 9);
}

#[test]
fn deal_rejections() {
    let mut table = new_table(6, &[0, 1, 2]);
    let (hand0, mut deck0) = start_hand::handler(&mut table, 1000).unwrap();
    let seats0 = vec![new_seat(0, 1000), new_seat(1, 1000), new_seat(2, 1000)];

    // Not yet shuffled.
    let (mut hand, mut deck, mut seats) = (hand0, deck0, seats0.clone());
    assert_eq!(
        deal_cards::handler(&table, &mut hand, &mut deck, &mut seats, true, 1001).unwrap_err(),
        HiddenHandError::DeckNotShuffled
    );
    deck0.is_shuffled = true;

    // Somebody else has to wait for the deal window of 30 seconds.
    let (mut hand, mut deck, mut seats) = (hand0, deck0, seats0.clone());
    assert_eq!(
        deal_cards::handler(&table, &mut hand, &mut deck, &mut seats, false, 1029).unwrap_err(),
        HiddenHandError::UnauthorizedAuthority
    );
    assert_eq!(hand.phase, GamePhase::Dealing);
    assert!(deal_cards::handler(&table, &mut hand, &mut deck, &mut seats, false, 1030).is_ok());

    // Dealt once, the hand is no longer being dealt.
    assert_eq!(
        deal_cards::handler(&table, &mut hand, &mut deck, &mut seats, true, 1031).unwrap_err(),
        HiddenHandError::InvalidPhase
    );

    let (mut hand, mut deck) = (hand0, deck0);
    let mut twice = vec![new_seat(0, 1000), new_seat(1, 1000), new_seat(1, 1000)];
    assert_eq!(
        deal_cards::handler(&table, &mut hand, &mut deck, &mut twice, true, 1001).unwrap_err(),
        HiddenHandError::DuplicateAccount
    );
    let mut outside = vec![new_seat(0, 1000), new_seat(6, 1000)];
    assert_eq!(
        deal_cards::handler(&table, &mut hand, &mut deck, &mut outside, true, 1001).unwrap_err(),
        HiddenHandError::InvalidSeatIndex
    );
    let mut broke = vec![new_seat(0, 1000), new_seat(1, 0), new_seat(2, 0)];
    assert_eq!(
        deal_cards::handler(&table, &mut hand, &mut deck, &mut broke, true, 1001).unwrap_err(),
        HiddenHandError::NotEnoughPlayers
    );
    assert_eq!(broke[1].status, PlayerStatus::Sitting);
    assert_eq!(hand.phase, GamePhase::Dealing);

    let mut rich = hand0;
    rich.pot = u64::MAX - 29;
    let mut seats = seats0.clone();
    assert_eq!(
        deal_cards::handler(&table, &mut rich, &mut deck, &mut seats, true, 1001).unwrap_err(),
        HiddenHandError::Overflow
    );
    assert_eq!(seats[0].chips, 1000);

    let mut waiting = table;
    waiting.status = TableStatus::Waiting;
    let mut seats = seats0.clone();
    assert_eq!(
        deal_cards::handler(&waiting, &mut hand, &mut deck, &mut seats, true, 1001).unwrap_err(),
        HiddenHandError::HandNotInProgress
    );
}

#[test]
fn fold_to_win() {
    let (mut table, mut hand, deck, mut seats) = three_handed();
    // Seat 1 is first to act and folds, then the small blind folds.
    player_action::handler(&table, &mut hand, &deck, &mut seats[1], Action::Fold, 1002).unwrap();
    assert_eq!(hand.active_count, 2);
    assert_eq!(hand.phase, GamePhase::PreFlop);
    assert_eq!(hand.action_on, 2);
    assert_eq!(seats[1].status, PlayerStatus::Folded);
    player_action::handler(&table, &mut hand, &deck, &mut seats[2], Action::Fold, 1003).unwrap();
    assert_eq!(hand.active_count, 1);
    assert_eq!(hand.active_players, 0b001);
    assert_eq!(hand.phase, GamePhase::Settled);
    assert_eq!(hand.community_revealed, 0);
    assert_eq!(hand.community_cards, [255; 5]);
    assert_eq!(hand.pot, 30);

    // The last seat takes the pot without showing or evaluating anything.
    let record = showdown::handler(&mut table, &mut hand, &mut seats, true, 1004).unwrap();
    assert_eq!(seats[0].chips, 1010);
    assert_eq!(seats[1].chips, 1000);
    assert_eq!(seats[2].chips, 990);
    for seat in &seats {
        assert_eq!(seat.status, PlayerStatus::Sitting);
        assert_eq!(seat.current_bet, 0);
        assert_eq!(seat.total_bet_this_hand, 0);
        assert_eq!(seat.hole_card_1, 255);
        assert_eq!(seat.hole_card_2, 255);
        assert_eq!(seat.revealed_card_1, 255);
        assert!(!seat.cards_revealed);
        assert!(!seat.has_acted);
    }
    assert_eq!(hand.phase, GamePhase::Settled);
    assert_eq!(hand.pot, 0);
    assert_eq!(table.status, TableStatus::Waiting);
    assert_eq!(table.last_ready_time, 1004);
    assert_eq!(record.total_pot, 30);
    assert_eq!(record.hand_number, 1);
    assert_eq!(record.timestamp, 1004);
    assert_eq!(record.community_cards, [255; 5]);
    assert_eq!(record.player_count, 3);
    assert_eq!(record.results_count, 3);
    assert_eq!(record.results[0].seat_index, 0);
    assert_eq!(record.results[0].chips_won, 30);
    assert_eq!(record.results[0].chips_bet, 20);
    assert_eq!(record.results[0].hand_rank, 255);
    assert_eq!(record.results[0].hole_card_1, 255);
    assert!(!record.results[0].folded);
    assert!(record.results[1].folded);
    assert_eq!(record.results[1].chips_won, 0);
    assert_eq!(record.results[1].chips_bet, 0);
    assert_eq!(record.results[2].chips_bet, 10);
    assert!(record.results[2].folded);
    assert_eq!(record.results[3].chips_bet, 0);
    assert_eq!(record.results[3].player, [0u8; 32]);
    assert_eq!(record.results[0].player, [1u8; 32]);
}

#[test]
fn all_in_runout() {
    // Two players: seat 0 holds 1000, seat 1 holds 500.
    let mut table = new_table(2, &[0, 1]);
    let (mut hand, mut deck) = start_hand::handler(&mut table, 1000).unwrap();
    assert_eq!(table.dealer_position, 1);
    let board = [c(0, 0), c(5, 1), c(7, 2), c(9, 3), c(1, 1)];
    shuffled(
        &mut deck,
        &[board[0], board[1], board[2], board[3], board[4], c(11, 0), c(11, 1), c(12, 0), c(12, 1)],
    );
    let mut seats = vec![new_seat(0, 1000), new_seat(1, 500)];
    deal_cards::handler(&table, &mut hand, &mut deck, &mut seats, true, 1001).unwrap();
    // Two play: the button, seat 1, posts the small blind and acts first.
    assert_eq!(seats[1].chips, 490);
    assert_eq!(seats[0].chips, 980);
    assert_eq!(hand.pot, 30);
    assert_eq!(hand.action_on, 1);

    player_action::handler(&table, &mut hand, &deck, &mut seats[1], Action::AllIn, 1002).unwrap();
    assert_eq!(seats[1].chips, 0);
    assert_eq!(seats[1].status, PlayerStatus::AllIn);
    assert_eq!(seats[1].total_bet_this_hand, 500);
    assert_eq!(hand.pot, 520);
    assert_eq!(hand.current_bet, 500);
    assert_eq!(hand.min_raise, 480);
    assert_eq!(hand.all_in_players, 0b10);
    assert_eq!(hand.acted_this_round, 0b10);
    assert_eq!(hand.phase, GamePhase::PreFlop);
    assert_eq!(hand.action_on, 0);
    assert_eq!(hand.community_revealed, 0);

    player_action::handler(&table, &mut hand, &deck, &mut seats[0], Action::AllIn, 1003).unwrap();
    assert_eq!(seats[0].chips, 0);
    assert_eq!(seats[0].total_bet_this_hand, 1000);
    assert_eq!(hand.pot, 1500);
    assert_eq!(hand.current_bet, 1000);
    assert_eq!(hand.all_in_players, 0b11);
    // Nobody can bet any more: the whole board comes out at once.
    assert_eq!(hand.phase, GamePhase::Showdown);
    assert_eq!(hand.community_revealed, 5);
    assert_eq!(hand.community_cards, board);

    // Settlement waits for both hands to be shown.
    let mut early = seats.clone();
    assert_eq!(
        showdown::handler(&mut table, &mut hand, &mut early, true, 1004).unwrap_err(),
        HiddenHandError::PlayersNotRevealed
    );
    assert_eq!(early[0].chips, 0);
    assert_eq!(hand.pot, 1500);
    reveal_cards::handler(&hand, &mut seats[0], c(11, 0), c(11, 1)).unwrap();
    reveal_cards::handler(&hand, &mut seats[1], c(12, 0), c(12, 1)).unwrap();

    let record = showdown::handler(&mut table, &mut hand, &mut seats, true, 1005).unwrap();
    // Seat 0 gets back the 500 that seat 1 could not match; the aces of
    // seat 1 win the remaining 1000.
    assert_eq!(seats[0].chips, 500);
    assert_eq!(seats[1].chips, 1000);
    assert_eq!(record.total_pot, 1000);
    assert_eq!(record.community_cards, board);
    assert_eq!(record.results[0].chips_won, 0);
    assert_eq!(record.results[0].chips_bet, 1000);
    assert_eq!(record.results[0].hand_rank, 1);
    assert!(record.results[0].all_in);
    assert_eq!(record.results[0].hole_card_1, c(11, 0));
    assert_eq!(record.results[1].chips_won, 1000);
    assert_eq!(record.results[1].chips_bet, 500);
    assert_eq!(record.results[1].hand_rank, 1);
    assert_eq!(record.results[1].hole_card_2, c(12, 1));
    assert_eq!(record.results_count, 2);
    assert_eq!(hand.phase, GamePhase::Settled);
    assert_eq!(hand.pot, 0);
}

#[test]
fn split_pot() {
    // The board is a straight to the ace; neither hand improves on it.
    let board = [c(12, 2), c(11, 3), c(10, 0), c(9, 1), c(8, 2)];
    let cards_0 = [c(0, 0), c(1, 1), board[0], board[1], board[2], board[3], board[4]];
    let cards_1 = [c(2, 0), c(3, 1), board[0], board[1], board[2], board[3], board[4]];
    assert_eq!(find_winners(&[(4, cards_0), (2, cards_1)]), vec![4, 2]);

    let mut table = new_table(6, &[2, 4]);
    table.status = TableStatus::Playing;
    let mut hand = showdown_hand(board, 0b10100, 2, 1001);
    let mut seats = vec![shown_seat(4, 70, 500, c(0, 0), c(1, 1)), shown_seat(2, 30, 500, c(2, 0), c(3, 1))];
    let record = showdown::handler(&mut table, &mut hand, &mut seats, true, 1001).unwrap();
    // 1001 over two winners: 500 each, and the odd chip to the lower seat.
    assert_eq!(seats[0].chips, 70 + 500);
    assert_eq!(seats[1].chips, 30 + 501);
    assert_eq!(record.total_pot, 1001);
    assert_eq!(record.results[0].chips_won, 500);
    assert_eq!(record.results[1].chips_won, 501);
    assert_eq!(record.results[0].hand_rank, 4);
    assert_eq!(record.results[1].hand_rank, 4);
}

#[test]
fn three_way_split_assigns_the_whole_pot() {
    let board = [c(12, 2), c(11, 3), c(10, 0), c(9, 1), c(8, 2)];
    let mut table = new_table(6, &[0, 1, 2, 3]);
    table.status = TableStatus::Playing;
    let mut hand = showdown_hand(board, 0b1011, 3, 1000);
    let mut folded = new_seat(2, 40);
    folded.status = PlayerStatus::Folded;
    folded.total_bet_this_hand = 100;
    let mut seats = vec![
        shown_seat(3, 0, 300, c(0, 0), c(1, 1)),
        folded,
        shown_seat(1, 0, 300, c(2, 0), c(3, 1)),
        shown_seat(0, 0, 300, c(4, 0), c(5, 1)),
    ];
    let before: u64 = seats.iter().map(|s| s.chips).sum();
    showdown::handler(&mut table, &mut hand, &mut seats, true, 1001).unwrap();
    assert_eq!(seats[0].chips, 333);
    assert_eq!(seats[1].chips, 40);
    assert_eq!(seats[2].chips, 333);
    assert_eq!(seats[3].chips, 334);
    let after: u64 = seats.iter().map(|s| s.chips).sum();
    assert_eq!(after, before + 1000);
}

#[test]
fn refund_equalizes_against_the_smallest_stake_only() {
    // Three all-in amounts: 100, 300 and 600. Only the excess over 100 goes
    // back; the rest of the pot goes to the best hand.
    let board = [c(0, 0), c(5, 1), c(7, 2), c(9, 3), c(1, 1)];
    let mut table = new_table(6, &[0, 1, 2]);
    table.status = TableStatus::Playing;
    let mut hand = showdown_hand(board, 0b111, 3, 1000);
    let mut seats = vec![
        shown_seat(0, 0, 100, c(12, 0), c(12, 1)),
        shown_seat(1, 0, 300, c(11, 0), c(11, 1)),
        shown_seat(2, 0, 600, c(10, 0), c(10, 1)),
    ];
    let record = showdown::handler(&mut table, &mut hand, &mut seats, true, 1001).unwrap();
    assert_eq!(seats[0].chips, 300);
    assert_eq!(seats[1].chips, 200);
    assert_eq!(seats[2].chips, 500);
    assert_eq!(record.total_pot, 300);
    assert_eq!(record.results[0].chips_won, 300);
}

#[test]
fn settlement_rejections() {
    let board = [c(0, 0), c(5, 1), c(7, 2), c(9, 3), c(1, 1)];
    let mut table = new_table(6, &[0, 1]);
    table.status = TableStatus::Playing;
    let hand0 = showdown_hand(board, 0b11, 2, 1000);
    let seats0 = vec![shown_seat(0, 0, 500, c(12, 0), c(12, 1)), shown_seat(1, 0, 500, c(11, 0), c(11, 1))];

    // Somebody else has to wait for the action window of 60 seconds.
    let (mut hand, mut seats) = (hand0, seats0.clone());
    assert_eq!(
        showdown::handler(&mut table, &mut hand, &mut seats, false, 1059).unwrap_err(),
        HiddenHandError::UnauthorizedAuthority
    );
    assert_eq!(hand.pot, 1000);
    assert_eq!(table.status, TableStatus::Playing);
    let (mut hand, mut seats) = (hand0, seats0.clone());
    let mut open = table;
    assert!(showdown::handler(&mut open, &mut hand, &mut seats, false, 1060).is_ok());

    let mut hand = hand0;
    let mut twice = vec![seats0[0], seats0[1], seats0[1]];
    assert_eq!(
        showdown::handler(&mut table, &mut hand, &mut twice, true, 1001).unwrap_err(),
        HiddenHandError::DuplicateAccount
    );
    let mut outside = vec![seats0[0], shown_seat(6, 0, 500, 1, 2)];
    assert_eq!(
        showdown::handler(&mut table, &mut hand, &mut outside, true, 1001).unwrap_err(),
        HiddenHandError::InvalidSeatIndex
    );
    let mut missing = vec![seats0[0]];
    assert_eq!(
        showdown::handler(&mut table, &mut hand, &mut missing, true, 1001).unwrap_err(),
        HiddenHandError::ShowdownRequiresPlayers
    );
    assert_eq!(missing[0].chips, 0);

    let mut river = hand0;
    river.phase = GamePhase::River;
    river.action_on = 0;
    let mut seats = seats0.clone();
    assert_eq!(
        showdown::handler(&mut table, &mut river, &mut seats, true, 1001).unwrap_err(),
        HiddenHandError::InvalidPhase
    );
    let mut settled = hand0;
    settled.phase = GamePhase::Settled;
    assert_eq!(
        showdown::handler(&mut table, &mut settled, &mut seats, true, 1001).unwrap_err(),
        HiddenHandError::InvalidPhase
    );
    let mut short_board = hand0;
    short_board.community_cards = [board[0], board[1], board[2], 255, 255];
    short_board.community_revealed = 3;
    assert_eq!(
        showdown::handler(&mut table, &mut short_board, &mut seats, true, 1001).unwrap_err(),
        HiddenHandError::InvalidPhase
    );

    let mut hidden = seats0.clone();
    hidden[1].cards_revealed = false;
    let mut hand = hand0;
    assert_eq!(
        showdown::handler(&mut table, &mut hand, &mut hidden, true, 1001).unwrap_err(),
        HiddenHandError::PlayersNotRevealed
    );

    // More to refund than the pot holds.
    let mut thin = hand0;
    thin.pot = 10;
    let mut uneven = vec![shown_seat(0, 0, 500, c(12, 0), c(12, 1)), shown_seat(1, 0, 400, c(11, 0), c(11, 1))];
    assert_eq!(
        showdown::handler(&mut table, &mut thin, &mut uneven, true, 1001).unwrap_err(),
        HiddenHandError::Overflow
    );
    assert_eq!(uneven[0].chips, 0);

    // A stack that cannot hold its winnings.
    let mut full = seats0.clone();
    full[0].chips = u64::MAX - 999;
    let mut hand = hand0;
    assert_eq!(
        showdown::handler(&mut table, &mut hand, &mut full, true, 1001).unwrap_err(),
        HiddenHandError::Overflow
    );
    assert_eq!(full[0].chips, u64::MAX - 999);
    assert_eq!(hand.pot, 1000);
    full[0].chips = u64::MAX - 1000;
    assert!(showdown::handler(&mut table, &mut hand, &mut full, true, 1001).is_ok());
    assert_eq!(full[0].chips, u64::MAX);

    // Nobody left to win.
    let mut table = new_table(6, &[0, 1]);
    table.status = TableStatus::Playing;
    let mut empty = showdown_hand(board, 0, 0, 1000);
    let mut nobody = seats0.clone();
    nobody[0].status = PlayerStatus::Folded;
    nobody[1].status = PlayerStatus::Folded;
    assert_eq!(
        showdown::handler(&mut table, &mut empty, &mut nobody, true, 1001).unwrap_err(),
        HiddenHandError::InvalidPhase
    );
}

#[test]
fn a_round_of_calls_and_checks_reaches_showdown() {
    let (table, mut hand, deck, mut seats) = three_handed();
    player_action::handler(&table, &mut hand, &deck, &mut seats[1], Action::Call, 1002).unwrap();
    assert_eq!(hand.pot, 50);
    assert_eq!(seats[1].chips, 980);
    assert_eq!(seats[1].current_bet, 20);
    assert!(seats[1].has_acted);
    assert_eq!(hand.acted_this_round, 0b010);
    assert_eq!(hand.action_on, 2);
    assert_eq!(hand.last_action_time, 1002);
    assert!(!hand.is_betting_complete());
    player_action::handler(&table, &mut hand, &deck, &mut seats[2], Action::Call, 1003).unwrap();
    assert_eq!(hand.pot, 60);
    assert_eq!(seats[2].chips, 980);
    assert_eq!(hand.action_on, 0);
    assert_eq!(hand.phase, GamePhase::PreFlop);
    // The big blind has nothing to call and checks: the flop comes.
    player_action::handler(&table, &mut hand, &deck, &mut seats[0], Action::Check, 1004).unwrap();
    assert_eq!(hand.phase, GamePhase::Flop);
    assert_eq!(hand.community_revealed, 3);
    assert_eq!(hand.community_cards, [c(0, 0), c(5, 1), c(7, 2), 255, 255]);
    assert_eq!(hand.current_bet, 0);
    assert_eq!(hand.acted_this_round, 0);
    assert_eq!(hand.action_on, 2);
    assert_eq!(hand.pot, 60);

    for (phase, revealed) in [(GamePhase::Turn, 4u8), (GamePhase::River, 5u8), (GamePhase::Showdown, 5u8)] {
        for index in [2usize, 0, 1] {
            assert_eq!(usize::from(hand.action_on), index);
            player_action::handler(&table, &mut hand, &deck, &mut seats[index], Action::Check, 1005)
                .unwrap();
        }
        assert_eq!(hand.phase, phase);
        assert_eq!(hand.community_revealed, revealed);
    }
    assert_eq!(hand.community_cards, [c(0, 0), c(5, 1), c(7, 2), c(9, 3), c(1, 1)]);
    assert_eq!(hand.pot, 60);
}

#[test]
fn raise_sets_the_bet_and_reopens_the_round() {
    let (table, mut hand, deck, mut seats) = three_handed();
    player_action::handler(&table, &mut hand, &deck, &mut seats[1], Action::Call, 1002).unwrap();
    player_action::handler(&table, &mut hand, &deck, &mut seats[2], Action::Call, 1003).unwrap();
    assert_eq!(hand.acted_this_round, 0b110);
    // The big blind raises by 40 on top of its 20.
    player_action::handler(
        &table,
        &mut hand,
        &deck,
        &mut seats[0],
        Action::Raise { amount: 40 },
        1004,
    )
    .unwrap();
    assert_eq!(hand.current_bet, 60);
    assert_eq!(hand.min_raise, 40);
    assert_eq!(hand.pot, 100);
    assert_eq!(seats[0].chips, 940);
    assert_eq!(seats[0].current_bet, 60);
    // Every other seat has to act again.
    assert_eq!(hand.acted_this_round, 0b001);
    assert!(hand.has_player_acted(0));
    assert!(!hand.has_player_acted(1));
    assert!(!hand.has_player_acted(2));
    assert!(!hand.is_betting_complete());
    assert_eq!(hand.action_on, 1);
    assert_eq!(hand.phase, GamePhase::PreFlop);
    player_action::handler(&table, &mut hand, &deck, &mut seats[1], Action::Call, 1005).unwrap();
    assert_eq!(seats[1].chips, 940);
    player_action::handler(&table, &mut hand, &deck, &mut seats[2], Action::Call, 1006).unwrap();
    assert_eq!(hand.pot, 180);
    assert_eq!(hand.phase, GamePhase::Flop);
}

#[test]
fn raise_beyond_the_stack_stakes_the_stack() {
    let (table, mut hand, deck, mut seats) = three_handed();
    seats[1].chips = 50;
    player_action::handler(
        &table,
        &mut hand,
        &deck,
        &mut seats[1],
        Action::Raise { amount: 80 },
        1002,
    )
    .unwrap();
    assert_eq!(seats[1].chips, 0);
    assert_eq!(seats[1].current_bet, 50);
    assert_eq!(seats[1].status, PlayerStatus::AllIn);
    assert_eq!(hand.pot, 80);
    assert_eq!(hand.current_bet, 80);
    assert_eq!(hand.min_raise, 60);
    assert_eq!(hand.all_in_players, 0b010);
    assert_eq!(hand.action_on, 2);
}

#[test]
fn short_call_goes_all_in() {
    let (table, mut hand, deck, mut seats) = three_handed();
    seats[1].chips = 15;
    player_action::handler(&table, &mut hand, &deck, &mut seats[1], Action::Call, 1002).unwrap();
    assert_eq!(seats[1].chips, 0);
    assert_eq!(seats[1].current_bet, 15);
    assert_eq!(seats[1].status, PlayerStatus::AllIn);
    assert_eq!(hand.pot, 45);
    assert_eq!(hand.current_bet, 20);
    assert_eq!(hand.all_in_players, 0b010);
    assert!(hand.is_player_all_in(1));
    assert_eq!(hand.players_who_can_bet(), 0b101);
    assert!(hand.can_anyone_bet());
}

#[test]
fn all_in_below_the_bet_does_not_reopen_the_round() {
    let (table, mut hand, deck, mut seats) = three_handed();
    seats[1].chips = 15;
    player_action::handler(&table, &mut hand, &deck, &mut seats[1], Action::AllIn, 1002).unwrap();
    assert_eq!(hand.current_bet, 20);
    assert_eq!(hand.min_raise, 20);
    assert_eq!(hand.acted_this_round, 0b010);
    assert_eq!(hand.all_in_players, 0b010);
    assert_eq!(hand.pot, 45);
}

#[test]
fn action_rejections_change_nothing() {
    let (table, hand0, deck, seats0) = three_handed();
    let attempt = |table: &Table, hand: &HandState, seat: &PlayerSeat, action: Action| {
        let mut hand_after = *hand;
        let mut seat_after = *seat;
        let result =
            player_action::handler(table, &mut hand_after, &deck, &mut seat_after, action, 2000);
        assert_eq!(hand_after.pot, hand.pot);
        assert_eq!(hand_after.phase, hand.phase);
        assert_eq!(hand_after.action_on, hand.action_on);
        assert_eq!(hand_after.acted_this_round, hand.acted_this_round);
        assert_eq!(hand_after.active_players, hand.active_players);
        assert_eq!(hand_after.current_bet, hand.current_bet);
        assert_eq!(hand_after.last_action_time, hand.last_action_time);
        assert_eq!(seat_after.chips, seat.chips);
        assert_eq!(seat_after.status, seat.status);
        assert_eq!(seat_after.current_bet, seat.current_bet);
        assert_eq!(seat_after.has_acted, seat.has_acted);
        result.unwrap_err()
    };

    let mut waiting = table;
    waiting.status = TableStatus::Waiting;
    assert_eq!(attempt(&waiting, &hand0, &seats0[1], Action::Fold), HiddenHandError::HandNotInProgress);
    let mut dealing = hand0;
    dealing.phase = GamePhase::Showdown;
    assert_eq!(attempt(&table, &dealing, &seats0[1], Action::Fold), HiddenHandError::InvalidPhase);
    assert_eq!(attempt(&table, &hand0, &seats0[0], Action::Fold), HiddenHandError::NotPlayersTurn);
    let mut gone = seats0[1];
    gone.status = PlayerStatus::Folded;
    assert_eq!(attempt(&table, &hand0, &gone, Action::Check), HiddenHandError::PlayerFolded);
    gone.status = PlayerStatus::AllIn;
    assert_eq!(attempt(&table, &hand0, &gone, Action::Check), HiddenHandError::PlayerFolded);
    assert_eq!(attempt(&table, &hand0, &seats0[1], Action::Check), HiddenHandError::CannotCheck);
    let mut matched = seats0[1];
    matched.current_bet = 20;
    assert_eq!(attempt(&table, &hand0, &matched, Action::Call), HiddenHandError::InvalidAction);
    // A raise has to go 20 beyond the bet of 20.
    assert_eq!(
        attempt(&table, &hand0, &seats0[1], Action::Raise { amount: 39 }),
        HiddenHandError::RaiseTooSmall
    );
    assert_eq!(
        attempt(&table, &hand0, &seats0[1], Action::Raise { amount: 0 }),
        HiddenHandError::RaiseTooSmall
    );
    assert_eq!(
        attempt(&table, &hand0, &matched, Action::Raise { amount: u64::MAX }),
        HiddenHandError::Overflow
    );
    let mut rich = hand0;
    rich.pot = u64::MAX - 19;
    assert_eq!(attempt(&table, &rich, &seats0[1], Action::Call), HiddenHandError::Overflow);
    let mut counted = seats0[1];
    counted.total_bet_this_hand = u64::MAX - 19;
    assert_eq!(attempt(&table, &hand0, &counted, Action::Call), HiddenHandError::Overflow);

    // The smallest legal raise goes through.
    let (mut hand, mut seat) = (hand0, seats0[1]);
    player_action::handler(&table, &mut hand, &deck, &mut seat, Action::Raise { amount: 40 }, 2000)
        .unwrap();
    assert_eq!(hand.current_bet, 40);
    assert_eq!(hand.min_raise, 20);
}

#[test]
fn betting_is_complete_when_all_who_can_bet_have_acted() {
    let mut hand = showdown_hand([255; 5], 0b0111, 3, 0);
    hand.phase = GamePhase::PreFlop;
    hand.community_revealed = 0;
    hand.all_in_players = 0b0100;
    hand.acted_this_round = 0b0011;
    assert!(hand.is_betting_complete());
    hand.acted_this_round = 0b0001;
    assert!(!hand.is_betting_complete());
    // The all-in seat needs no action, the folded seat neither.
    hand.acted_this_round = 0b1011;
    assert!(hand.is_betting_complete());
    hand.acted_this_round = 0b0100;
    assert!(!hand.is_betting_complete());
    hand.all_in_players = 0b0111;
    hand.acted_this_round = 0;
    assert!(hand.is_betting_complete());
    assert!(!hand.can_anyone_bet());
    hand.all_in_players = 0b0110;
    assert!(!hand.can_anyone_bet());
    hand.all_in_players = 0b0100;
    assert!(hand.can_anyone_bet());
    assert_eq!(hand.players_who_can_bet(), 0b0011);
}

#[test]
fn hand_state_seat_sets() {
    let mut hand = showdown_hand([255; 5], 0b101, 2, 0);
    assert!(hand.is_player_active(0));
    assert!(!hand.is_player_active(1));
    assert_eq!(hand.next_active_player(0, 6), Some(2));
    assert_eq!(hand.next_active_player(2, 6), Some(0));
    assert_eq!(hand.next_active_player(5, 6), Some(0));
    hand.fold_player(0);
    assert_eq!(hand.active_players, 0b100);
    assert_eq!(hand.active_count, 1);
    assert_eq!(hand.next_active_player(2, 6), Some(2));
    hand.fold_player(2);
    hand.fold_player(2);
    assert_eq!(hand.active_count, 0);
    assert_eq!(hand.next_active_player(2, 6), None);
    hand.mark_acted(3);
    hand.mark_all_in(5);
    assert!(hand.has_player_acted(3));
    assert!(hand.is_player_all_in(5));
    hand.current_bet = 77;
    hand.reset_betting_round();
    assert_eq!(hand.acted_this_round, 0);
    assert_eq!(hand.current_bet, 0);
    hand.phase = GamePhase::Dealing;
    let order = [
        GamePhase::PreFlop,
        GamePhase::Flop,
        GamePhase::Turn,
        GamePhase::River,
        GamePhase::Showdown,
        GamePhase::Settled,
        GamePhase::Settled,
    ];
    for phase in order {
        hand.current_bet = 5;
        hand.acted_this_round = 1;
        hand.advance_phase();
        assert_eq!(hand.phase, phase);
        assert_eq!(hand.current_bet, 0);
        assert_eq!(hand.acted_this_round, 0);
    }
    assert_eq!(HandState::SIZE, 102);
}

#[test]
fn timeout_folds_a_player_who_owes_a_call() {
    let (table, mut hand, deck, mut seats) = three_handed();
    // The last event was the deal at 1001: too early at 1060.
    assert_eq!(
        timeout_player::handler(&table, &mut hand, &deck, &mut seats[1], 1060).unwrap_err(),
        HiddenHandError::ActionNotTimedOut
    );
    assert_eq!(seats[1].status, PlayerStatus::Playing);
    assert_eq!(hand.action_on, 1);
    timeout_player::handler(&table, &mut hand, &deck, &mut seats[1], 1061).unwrap();
    assert_eq!(seats[1].status, PlayerStatus::Folded);
    assert_eq!(seats[1].chips, 1000);
    assert_eq!(hand.active_players, 0b101);
    assert_eq!(hand.active_count, 2);
    assert_eq!(hand.action_on, 2);
    assert_eq!(hand.last_action_time, 1061);
    // The next window runs from the timeout.
    assert_eq!(
        timeout_player::handler(&table, &mut hand, &deck, &mut seats[2], 1120).unwrap_err(),
        HiddenHandError::ActionNotTimedOut
    );
    timeout_player::handler(&table, &mut hand, &deck, &mut seats[2], 1121).unwrap();
    assert_eq!(hand.phase, GamePhase::Settled);
    assert_eq!(hand.active_count, 1);
}

#[test]
fn timeout_checks_for_a_player_who_owes_nothing() {
    let (table, mut hand, deck, mut seats) = three_handed();
    player_action::handler(&table, &mut hand, &deck, &mut seats[1], Action::Call, 1002).unwrap();
    player_action::handler(&table, &mut hand, &deck, &mut seats[2], Action::Call, 1003).unwrap();
    timeout_player::handler(&table, &mut hand, &deck, &mut seats[0], 1063).unwrap();
    assert_eq!(seats[0].status, PlayerStatus::Playing);
    assert!(seats[0].has_acted);
    assert_eq!(seats[0].chips, 980);
    assert_eq!(hand.phase, GamePhase::Flop);
    assert_eq!(hand.action_on, 2);
    assert_eq!(hand.active_count, 3);
}

#[test]
fn timeouts_alone_finish_a_hand() {
    let (table, mut hand, deck, mut seats) = three_handed();
    player_action::handler(&table, &mut hand, &deck, &mut seats[1], Action::Call, 1002).unwrap();
    player_action::handler(&table, &mut hand, &deck, &mut seats[2], Action::Call, 1003).unwrap();
    let mut now = 1003;
    let mut steps = 0;
    while hand.phase != GamePhase::Showdown && hand.phase != GamePhase::Settled {
        now += 60;
        let index = usize::from(hand.action_on);
        timeout_player::handler(&table, &mut hand, &deck, &mut seats[index], now).unwrap();
        steps += 1;
        assert!(steps <= 10);
    }
    // One check ends the first round, three checks each of the others.
    assert_eq!(steps, 10);
    assert_eq!(hand.phase, GamePhase::Showdown);
    assert_eq!(hand.community_revealed, 5);
}

#[test]
fn timeout_rejections() {
    let (table, hand0, deck, seats0) = three_handed();
    let mut waiting = table;
    waiting.status = TableStatus::Waiting;
    let (mut hand, mut seat) = (hand0, seats0[1]);
    assert_eq!(
        timeout_player::handler(&waiting, &mut hand, &deck, &mut seat, 5000).unwrap_err(),
        HiddenHandError::HandNotInProgress
    );
    let mut over = hand0;
    over.phase = GamePhase::Settled;
    assert_eq!(
        timeout_player::handler(&table, &mut over, &deck, &mut seat, 5000).unwrap_err(),
        HiddenHandError::InvalidPhase
    );
    let mut other = seats0[2];
    assert_eq!(
        timeout_player::handler(&table, &mut hand, &deck, &mut other, 5000).unwrap_err(),
        HiddenHandError::NotPlayersTurn
    );
    let mut all_in = seats0[1];
    all_in.status = PlayerStatus::AllIn;
    assert_eq!(
        timeout_player::handler(&table, &mut hand, &deck, &mut all_in, 5000).unwrap_err(),
        HiddenHandError::InvalidAction
    );
    assert_eq!(hand.action_on, 1);
    assert_eq!(hand.active_count, 3);
}

#[test]
fn reveal_checks_and_stores_the_cards() {
    let board = [c(0, 0), c(5, 1), c(7, 2), c(9, 3), c(1, 1)];
    let hand = showdown_hand(board, 0b11, 2, 100);
    let mut seat = new_seat(0, 10);
    seat.status = PlayerStatus::AllIn;
    assert_eq!(reveal_cards::handler(&hand, &mut seat, 52, 3).unwrap_err(), HiddenHandError::InvalidCard);
    assert_eq!(reveal_cards::handler(&hand, &mut seat, 3, 255).unwrap_err(), HiddenHandError::InvalidCard);
    assert!(!seat.cards_revealed);
    reveal_cards::handler(&hand, &mut seat, 51, 3).unwrap();
    assert!(seat.cards_revealed);
    assert_eq!(seat.revealed_card_1, 51);
    assert_eq!(seat.revealed_card_2, 3);
    assert_eq!(
        reveal_cards::handler(&hand, &mut seat, 1, 2).unwrap_err(),
        HiddenHandError::CardsAlreadyRevealed
    );
    assert_eq!(seat.revealed_card_1, 51);
    let mut folded = new_seat(1, 10);
    folded.status = PlayerStatus::Folded;
    assert_eq!(reveal_cards::handler(&hand, &mut folded, 1, 2).unwrap_err(), HiddenHandError::PlayerNotActive);
    let mut sitting = new_seat(1, 10);
    assert_eq!(reveal_cards::handler(&hand, &mut sitting, 1, 2).unwrap_err(), HiddenHandError::PlayerNotActive);
    let mut river = hand;
    river.phase = GamePhase::River;
    let mut playing = new_seat(1, 10);
    playing.status = PlayerStatus::Playing;
    assert_eq!(reveal_cards::handler(&river, &mut playing, 1, 2).unwrap_err(), HiddenHandError::InvalidPhase);
}

#[test]
fn muck_after_the_reveal_window() {
    let board = [c(0, 0), c(5, 1), c(7, 2), c(9, 3), c(1, 1)];
    let mut table = new_table(6, &[0, 1]);
    table.status = TableStatus::Playing;
    let mut hand = showdown_hand(board, 0b11, 2, 1000);
    let mut shown = shown_seat(0, 0, 500, c(2, 0), c(3, 1));
    let mut silent = new_seat(1, 0);
    silent.status = PlayerStatus::AllIn;
    silent.total_bet_this_hand = 500;

    assert_eq!(
        timeout_reveal::handler(&table, &mut hand, &mut silent, 1179).unwrap_err(),
        HiddenHandError::TimeoutNotReached
    );
    assert_eq!(silent.status, PlayerStatus::AllIn);
    assert_eq!(
        timeout_reveal::handler(&table, &mut hand, &mut shown, 1180).unwrap_err(),
        HiddenHandError::CardsAlreadyRevealed
    );
    timeout_reveal::handler(&table, &mut hand, &mut silent, 1180).unwrap();
    assert_eq!(silent.status, PlayerStatus::Folded);
    assert_eq!(hand.active_players, 0b01);
    assert_eq!(hand.active_count, 1);
    assert_eq!(hand.last_action_time, 1180);
    assert_eq!(hand.phase, GamePhase::Showdown);
    // Mucked once, the seat is not active any more.
    assert_eq!(
        timeout_reveal::handler(&table, &mut hand, &mut silent, 2000).unwrap_err(),
        HiddenHandError::PlayerNotActive
    );

    // The seat that is left takes the whole pot.
    let mut seats = vec![shown, silent];
    showdown::handler(&mut table, &mut hand, &mut seats, true, 1181).unwrap();
    assert_eq!(seats[0].chips, 1000);
    assert_eq!(seats[1].chips, 0);
}

#[test]
fn muck_rejections() {
    let board = [c(0, 0), c(5, 1), c(7, 2), c(9, 3), c(1, 1)];
    let mut table = new_table(6, &[0, 1]);
    let hand0 = showdown_hand(board, 0b11, 2, 1000);
    let mut seat = new_seat(1, 0);
    seat.status = PlayerStatus::Playing;
    let mut hand = hand0;
    assert_eq!(
        timeout_reveal::handler(&table, &mut hand, &mut seat, 5000).unwrap_err(),
        HiddenHandError::HandNotInProgress
    );
    table.status = TableStatus::Playing;
    let mut river = hand0;
    river.phase = GamePhase::River;
    assert_eq!(
        timeout_reveal::handler(&table, &mut river, &mut seat, 5000).unwrap_err(),
        HiddenHandError::InvalidPhase
    );
    let mut far = new_seat(6, 0);
    far.status = PlayerStatus::Playing;
    assert_eq!(
        timeout_reveal::handler(&table, &mut hand, &mut far, 5000).unwrap_err(),
        HiddenHandError::InvalidSeatIndex
    );
    let mut inactive = new_seat(3, 0);
    inactive.status = PlayerStatus::Playing;
    assert_eq!(
        timeout_reveal::handler(&table, &mut hand, &mut inactive, 5000).unwrap_err(),
        HiddenHandError::PlayerNotActive
    );
    assert_eq!(hand.active_count, 2);
}

#[test]
fn elapsed_time_is_exact_at_the_limits() {
    assert!(timeout_player::has_elapsed(60, 0, 60));
    assert!(!timeout_player::has_elapsed(59, 0, 60));
    assert!(!timeout_player::has_elapsed(0, 100, 60));
    assert!(timeout_player::has_elapsed(i64::MAX, -1, 60));
    assert!(timeout_player::has_elapsed(i64::MAX, i64::MIN, i64::MAX));
    assert!(!timeout_player::has_elapsed(i64::MIN, i64::MAX, 0));
    assert!(!timeout_player::has_elapsed(i64::MIN, 1, i64::MIN));
    assert!(timeout_player::has_elapsed(-5, -5, 0));
}

#[test]
fn royal_flush_and_wheel() {
    let royal = evaluate_hand(&[c(12, 2), c(11, 2), c(10, 2), c(9, 2), c(8, 2), c(0, 0), c(5, 1)]);
    assert_eq!(royal.rank, HandRank::RoyalFlush);
    assert_eq!(royal.kickers, [12, 11, 10, 9, 8]);
    let wheel = evaluate_hand(&[c(12, 0), c(0, 1), c(1, 2), c(2, 3), c(3, 0), c(8, 1), c(10, 2)]);
    assert_eq!(wheel.rank, HandRank::Straight);
    assert_eq!(wheel.kickers, [3, 0, 0, 0, 0]);
    let six_high = evaluate_hand(&[c(4, 0), c(0, 1), c(1, 2), c(2, 3), c(3, 0), c(8, 1), c(10, 2)]);
    assert_eq!(six_high.rank, HandRank::Straight);
    assert_eq!(six_high.kickers, [4, 0, 0, 0, 0]);
    // The wheel is the lowest straight.
    assert_eq!(wheel.compare(&six_high), Ordering::Less);
    assert_eq!(six_high.compare(&wheel), Ordering::Greater);
    assert!(six_high.beats(&wheel));
    assert!(!wheel.beats(&six_high));
    let steel_wheel = evaluate_hand(&[c(12, 3), c(0, 3), c(1, 3), c(2, 3), c(3, 3), c(8, 1), c(10, 2)]);
    assert_eq!(steel_wheel.rank, HandRank::StraightFlush);
    assert_eq!(steel_wheel.kickers, [3, 0, 0, 0, 0]);
}

#[test]
fn exact_kickers_of_every_category() {
    let quads = evaluate_hand(&[c(5, 0), c(5, 1), c(5, 2), c(5, 3), c(9, 0), c(12, 1), c(0, 2)]);
    assert_eq!((quads.rank, quads.kickers), (HandRank::FourOfAKind, [5, 12, 0, 0, 0]));
    let full = evaluate_hand(&[c(5, 0), c(5, 1), c(5, 2), c(9, 3), c(9, 0), c(12, 1), c(12, 2)]);
    assert_eq!((full.rank, full.kickers), (HandRank::FullHouse, [5, 12, 0, 0, 0]));
    let flush = evaluate_hand(&[c(5, 0), c(2, 0), c(9, 0), c(11, 0), c(7, 0), c(12, 1), c(12, 2)]);
    assert_eq!((flush.rank, flush.kickers), (HandRank::Flush, [11, 9, 7, 5, 2]));
    let straight = evaluate_hand(&[c(5, 0), c(6, 1), c(7, 2), c(8, 3), c(9, 0), c(10, 1), c(0, 2)]);
    assert_eq!((straight.rank, straight.kickers), (HandRank::Straight, [10, 0, 0, 0, 0]));
    let trips = evaluate_hand(&[c(5, 0), c(5, 1), c(5, 2), c(8, 3), c(10, 0), c(12, 1), c(0, 2)]);
    assert_eq!((trips.rank, trips.kickers), (HandRank::ThreeOfAKind, [5, 12, 10, 0, 0]));
    let two_pair = evaluate_hand(&[c(5, 0), c(5, 1), c(7, 2), c(7, 3), c(9, 0), c(9, 1), c(0, 2)]);
    assert_eq!((two_pair.rank, two_pair.kickers), (HandRank::TwoPair, [9, 7, 5, 0, 0]));
    let pair = evaluate_hand(&[c(5, 0), c(5, 1), c(7, 2), c(2, 3), c(9, 0), c(11, 1), c(0, 2)]);
    assert_eq!((pair.rank, pair.kickers), (HandRank::OnePair, [5, 11, 9, 7, 0]));
    let high = evaluate_hand(&[c(5, 0), c(3, 1), c(7, 2), c(2, 3), c(9, 0), c(11, 1), c(0, 2)]);
    assert_eq!((high.rank, high.kickers), (HandRank::HighCard, [11, 9, 7, 5, 3]));
    let straight_flush = evaluate_hand(&[c(5, 1), c(6, 1), c(7, 1), c(8, 1), c(9, 1), c(10, 0), c(11, 0)]);
    assert_eq!((straight_flush.rank, straight_flush.kickers), (HandRank::StraightFlush, [9, 0, 0, 0, 0]));
    assert_eq!(HandRank::HighCard.to_u8(), 0);
    assert_eq!(HandRank::Flush.to_u8(), 5);
    assert_eq!(HandRank::RoyalFlush.to_u8(), 9);
}

#[test]
fn comparison_is_antisymmetric_and_ignores_suits() {
    let hands = [
        [c(12, 0), c(11, 0), c(10, 0), c(9, 0), c(8, 0), c(0, 1), c(1, 2)],
        [c(5, 0), c(5, 1), c(7, 2), c(2, 3), c(9, 0), c(11, 1), c(0, 2)],
        [c(5, 2), c(5, 3), c(7, 0), c(2, 1), c(9, 2), c(11, 3), c(0, 0)],
        [c(5, 0), c(5, 1), c(7, 2), c(2, 3), c(9, 0), c(10, 1), c(0, 2)],
        [c(5, 0), c(3, 1), c(7, 2), c(2, 3), c(9, 0), c(11, 1), c(0, 2)],
    ];
    for a in &hands {
        for b in &hands {
            let (x, y) = (evaluate_hand(a), evaluate_hand(b));
            let forward = x.compare(&y);
            let backward = y.compare(&x);
            assert_eq!(forward == Ordering::Greater, backward == Ordering::Less);
            assert_eq!(forward == Ordering::Less, backward == Ordering::Greater);
            assert_eq!(forward == Ordering::Equal, backward == Ordering::Equal);
            assert_eq!(forward == Ordering::Equal, x.rank == y.rank && x.kickers == y.kickers);
            assert_eq!(x.beats(&y), forward == Ordering::Greater);
        }
    }
    // The same ranks in other suits tie.
    assert_eq!(evaluate_hand(&hands[1]).compare(&evaluate_hand(&hands[2])), Ordering::Equal);
    // The last kicker decides.
    let low = EvaluatedHand { rank: HandRank::HighCard, kickers: [12, 10, 8, 6, 3] };
    let high = EvaluatedHand { rank: HandRank::HighCard, kickers: [12, 10, 8, 6, 4] };
    assert_eq!(low.compare(&high), Ordering::Less);
    assert_eq!(high.compare(&low), Ordering::Greater);
    assert_eq!(low.compare(&low), Ordering::Equal);
    // The category goes before any kicker.
    let pair = EvaluatedHand { rank: HandRank::OnePair, kickers: [0, 0, 0, 0, 0] };
    assert_eq!(pair.compare(&high), Ordering::Greater);
}

#[test]
fn best_hand_is_the_best_of_all_five_card_subsets() {
    let cards = [c(12, 0), c(12, 1), c(7, 0), c(6, 0), c(5, 0), c(4, 0), c(3, 1)];
    let best = evaluate_hand(&cards);
    assert_eq!(best.rank, HandRank::Flush);
    assert_eq!(best.kickers, [12, 7, 6, 5, 4]);
    let mut found = false;
    for a in 0..7 {
        for b in (a + 1)..7 {
            let mut five = [0u8; 7];
            let mut n = 0;
            for (i, card) in cards.iter().enumerate() {
                if i != a && i != b {
                    five[n] = *card;
                    n += 1;
                }
            }
            // Pad with two cards that cannot improve the five.
            let lowest = five[..5].iter().map(|x| x % 13).min().unwrap();
            let _ = lowest;
            let alone = evaluate_subset(&[five[0], five[1], five[2], five[3], five[4]]);
            assert_ne!(alone.compare(&best), Ordering::Greater);
            if alone.compare(&best) == Ordering::Equal {
                found = true;
            }
        }
    }
    assert!(found);
}

fn evaluate_subset(five: &[u8; 5]) -> EvaluatedHand {
    hiddenhand::state::hand_eval::evaluate_five_cards(five)
}

#[test]
fn winners_of_one_none_and_all() {
    let cards = [c(12, 0), c(12, 1), c(7, 0), c(6, 0), c(5, 0), c(4, 1), c(2, 1)];
    assert_eq!(find_winners(&[]), Vec::<u8>::new());
    assert_eq!(find_winners(&[(5, cards)]), vec![5]);
    assert_eq!(find_winners(&[(5, cards), (1, cards), (3, cards)]), vec![5, 1, 3]);
    let better = [c(12, 0), c(12, 1), c(12, 2), c(6, 0), c(5, 0), c(4, 1), c(2, 1)];
    assert_eq!(find_winners(&[(5, cards), (1, better), (3, cards)]), vec![1]);
    assert_eq!(find_winners(&[(0, better), (1, cards), (2, better)]), vec![0, 2]);
}

#[test]
fn attested_message_digest() {
    let digest = reveal_cards::create_inco_message_hash(0x1f, 7);
    assert_eq!(
        digest,
        [
            165, 0, 0, 63, 86, 145, 125, 232, 57, 85, 166, 212, 107, 28, 57, 194, 108, 174, 144, 25,
            55, 49, 238, 184, 84, 14, 215, 2, 168, 13, 11, 140
        ]
    );
    let zero = reveal_cards::create_inco_message_hash(0, 0);
    assert_eq!(
        zero,
        [
            219, 245, 85, 165, 153, 17, 74, 110, 174, 212, 5, 61, 110, 148, 195, 193, 40, 134, 162,
            2, 22, 74, 184, 216, 244, 124, 54, 50, 254, 216, 149, 116
        ]
    );
    let widest = reveal_cards::create_inco_message_hash(u128::MAX, 51);
    assert_eq!(
        widest,
        [
            26, 229, 201, 117, 9, 248, 138, 130, 73, 56, 107, 10, 60, 209, 131, 244, 190, 249, 97,
            246, 38, 192, 86, 211, 65, 20, 250, 212, 231, 203, 103, 187
        ]
    );
    let mixed = reveal_cards::create_inco_message_hash(0xabcdef0123456789, 12);
    assert_eq!(
        mixed,
        [
            85, 215, 143, 236, 236, 106, 132, 255, 116, 38, 96, 8, 186, 243, 86, 129, 19, 179, 85,
            243, 108, 167, 138, 41, 218, 86, 174, 75, 212, 41, 228, 165
        ]
    );
}

#[test]
fn signature_record_is_checked_for_signer_and_message() {
    let handle: u128 = 0xabcdef0123456789;
    let mut record = vec![0u8; 144];
    record[0] = 1;
    record[80..112].copy_from_slice(&reveal_cards::INCO_COVALIDATOR_PUBKEY);
    record[112..144].copy_from_slice(&reveal_cards::create_inco_message_hash(handle, 12));
    assert!(reveal_cards::verify_ed25519_for_handle(&record, handle, 12));
    assert!(reveal_cards::verify_ed25519_signature(true, &record, handle, 12));
    assert!(!reveal_cards::verify_ed25519_signature(false, &record, handle, 12));
    // Another value, another handle, a shorter record.
    assert!(!reveal_cards::verify_ed25519_for_handle(&record, handle, 13));
    assert!(!reveal_cards::verify_ed25519_for_handle(&record, handle + 1, 12));
    assert!(!reveal_cards::verify_ed25519_for_handle(&record[..143], handle, 12));
    // A longer record is fine.
    let mut longer = record.clone();
    longer.push(9);
    assert!(reveal_cards::verify_ed25519_for_handle(&longer, handle, 12));
    // Another signer.
    let mut forged = record.clone();
    forged[111] ^= 1;
    assert!(!reveal_cards::verify_ed25519_for_handle(&forged, handle, 12));
    // A message that is not the digest.
    let mut altered = record.clone();
    altered[143] ^= 1;
    assert!(!reveal_cards::verify_ed25519_for_handle(&altered, handle, 12));
    // Two signatures in one record.
    let mut two = record.clone();
    two[0] = 2;
    assert!(reveal_cards::verify_ed25519_for_handle(&two, handle, 12));
    assert!(!reveal_cards::verify_ed25519_signature(true, &two, handle, 12));
    let mut wide = record.clone();
    wide[1] = 1;
    assert!(!reveal_cards::verify_ed25519_signature(true, &wide, handle, 12));
}

#[test]
fn record_lists_six_seats_at_most() {
    let board = [c(0, 0), c(5, 1), c(7, 2), c(9, 3), c(1, 1)];
    let mut table = new_table(6, &[0, 1, 2, 3, 4, 5]);
    table.status = TableStatus::Playing;
    let mut hand = showdown_hand(board, 0b111111, 6, 600);
    let mut seats: Vec<PlayerSeat> = (0..6u8).map(|i| shown_seat(i, 0, 100, c(i, 2), c(i, 3))).collect();
    let record: HandCompleted = showdown::handler(&mut table, &mut hand, &mut seats, true, 1001).unwrap();
    assert_eq!(record.results_count, 6);
    assert_eq!(record.player_count, 6);
    assert_eq!(record.table_id, [7u8; 32]);
    // Every seat holds a pocket pair; the sevens of seat 5 meet a third
    // seven on the board.
    assert_eq!(seats[5].chips, 600);
    assert_eq!(record.results[5].chips_won, 600);
    assert_eq!(record.results[5].hand_rank, 3);
    assert_eq!(record.results[2].hand_rank, 1);
    assert_eq!(record.results[0].hand_rank, 3);
    assert_eq!(record.results[0].chips_won, 0);
}
