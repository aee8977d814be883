use hiddenhand::error::HiddenHandError;
use hiddenhand::events::PlayerHandResult;
use hiddenhand::instructions::player_action::{
    advance_to_next_phase, check_action, find_next_player_who_can_act,
    get_first_active_left_of_dealer, run_out_to_showdown, Action,
};
use hiddenhand::state::deck::DeckState;
use hiddenhand::state::hand::{GamePhase, HandState};
use hiddenhand::state::hand_eval::{evaluate_five_cards, get_rank, get_suit, HandRank};
use hiddenhand::state::player::{PlayerSeat, PlayerStatus};
use hiddenhand::state::seat_mask::{
    mask_is_below, mask_minus, mask_next, mask_size, mask_test, mask_with, mask_without, seat_after,
};
use hiddenhand::state::table::{Table, TableStatus};

fn betting_hand() -> HandState {
    HandState {
        table: [7u8; 32],
        hand_number: 1,
        phase: GamePhase::PreFlop,
        pot: 30,
        current_bet: 20,
        min_raise: 20,
        dealer_position: 1,
        action_on: 3,
        community_cards: [255; 5],
        community_revealed: 0,
        active_players: 0b101101,
        acted_this_round: 0,
        active_count: 4,
        all_in_players: 0,
        last_action_time: 0,
        hand_start_time: 0,
        bump: 0,
    }
}

fn board_deck() -> DeckState {
    let mut cards = [0u128; 52];
    for (i, entry) in cards.iter_mut().enumerate() {
        *entry = u128::try_from(40 + i).unwrap();
    }
    DeckState {
        hand: [0u8; 32],
        cards,
        deal_index: 13,
        is_shuffled: true,
        vrf_seed: [0u8; 32],
        seed_received: false,
        bump: 0,
    }
}

#[test]
fn seat_sets_as_bits() {
    assert!(mask_test(0b0100, 2));
    assert!(!mask_test(0b0100, 1));
    assert!(mask_test(0x80, 7));
    assert_eq!(mask_with(0b0100, 0), 0b0101);
    assert_eq!(mask_with(0b0101, 0), 0b0101);
    assert_eq!(mask_with(0, 7), 0x80);
    assert_eq!(mask_without(0b0101, 2), 0b0001);
    assert_eq!(mask_without(0b0101, 1), 0b0101);
    assert_eq!(mask_minus(0b1111, 0b0101), 0b1010);
    assert_eq!(mask_minus(0b0101, 0b1111), 0);
    assert_eq!(mask_size(0), 0);
    assert_eq!(mask_size(0b101101), 4);
    assert_eq!(mask_size(0xff), 8);
    assert!(mask_is_below(0b00111111, 6));
    assert!(!mask_is_below(0b01000000, 6));
    assert!(mask_is_below(0, 0));
    assert!(!mask_is_below(1, 0));
    assert!(mask_is_below(0xff, 8));
}

#[test]
fn seats_are_scanned_clockwise() {
    assert_eq!(seat_after(0, 6), 1);
    assert_eq!(seat_after(5, 6), 0);
    assert_eq!(seat_after(0, 1), 0);
    assert_eq!(mask_next(0b101101, 0, 6), Some(2));
    assert_eq!(mask_next(0b101101, 3, 6), Some(5));
    assert_eq!(mask_next(0b101101, 5, 6), Some(0));
    // The seat itself comes last.
    assert_eq!(mask_next(0b001000, 3, 6), Some(3));
    assert_eq!(mask_next(0, 3, 6), None);
    // Seats beyond the table are not looked at.
    assert_eq!(mask_next(0b1000000, 3, 6), None);
}

#[test]
fn next_to_act_skips_folded_all_in_and_acted_seats() {
    let mut hand = betting_hand();
    assert_eq!(find_next_player_who_can_act(&hand, 3, 6), Some(5));
    hand.all_in_players = 0b100000;
    assert_eq!(find_next_player_who_can_act(&hand, 3, 6), Some(0));
    hand.acted_this_round = 0b000001;
    assert_eq!(find_next_player_who_can_act(&hand, 3, 6), Some(2));
    hand.acted_this_round = 0b000101;
    assert_eq!(find_next_player_who_can_act(&hand, 3, 6), Some(3));
    hand.acted_this_round = 0b001101;
    assert_eq!(find_next_player_who_can_act(&hand, 3, 6), None);
}

#[test]
fn round_opens_left_of_the_dealer() {
    let mut hand = betting_hand();
    assert_eq!(get_first_active_left_of_dealer(&hand, 6), 2);
    hand.all_in_players = 0b001100;
    assert_eq!(get_first_active_left_of_dealer(&hand, 6), 5);
    // All active seats all-in: the first active seat.
    hand.all_in_players = 0b101101;
    assert_eq!(get_first_active_left_of_dealer(&hand, 6), 2);
    // Nobody active: the dealer.
    hand.active_players = 0;
    assert_eq!(get_first_active_left_of_dealer(&hand, 6), 1);
}

#[test]
fn phases_reveal_their_tranche() {
    let deck = board_deck();
    let mut hand = betting_hand();
    hand.acted_this_round = 0b101101;
    advance_to_next_phase(&mut hand, &deck, 6);
    assert_eq!(hand.phase, GamePhase::Flop);
    assert_eq!(hand.community_cards, [40, 41, 42, 255, 255]);
    assert_eq!(hand.community_revealed, 3);
    assert_eq!(hand.acted_this_round, 0);
    assert_eq!(hand.current_bet, 0);
    assert_eq!(hand.action_on, 2);
    assert_eq!(hand.pot, 30);
    assert_eq!(hand.min_raise, 20);
    advance_to_next_phase(&mut hand, &deck, 6);
    assert_eq!(hand.phase, GamePhase::Turn);
    assert_eq!(hand.community_cards, [40, 41, 42, 43, 255]);
    assert_eq!(hand.community_revealed, 4);
    advance_to_next_phase(&mut hand, &deck, 6);
    assert_eq!(hand.phase, GamePhase::River);
    assert_eq!(hand.community_cards, [40, 41, 42, 43, 44]);
    assert_eq!(hand.community_revealed, 5);
    advance_to_next_phase(&mut hand, &deck, 6);
    assert_eq!(hand.phase, GamePhase::Showdown);
    assert_eq!(hand.community_cards, [40, 41, 42, 43, 44]);
    assert_eq!(hand.community_revealed, 5);
}

#[test]
fn run_out_reveals_what_is_hidden() {
    let deck = board_deck();
    let mut from_start = betting_hand();
    run_out_to_showdown(&mut from_start, &deck);
    assert_eq!(from_start.phase, GamePhase::Showdown);
    assert_eq!(from_start.community_cards, [40, 41, 42, 43, 44]);
    assert_eq!(from_start.community_revealed, 5);
    assert_eq!(from_start.current_bet, 20);

    let mut from_flop = betting_hand();
    from_flop.phase = GamePhase::Flop;
    from_flop.community_cards = [1, 2, 3, 255, 255];
    from_flop.community_revealed = 3;
    run_out_to_showdown(&mut from_flop, &deck);
    assert_eq!(from_flop.phase, GamePhase::Showdown);
    assert_eq!(from_flop.community_cards, [1, 2, 3, 43, 44]);

    let mut from_river = betting_hand();
    from_river.phase = GamePhase::River;
    from_river.community_cards = [1, 2, 3, 4, 5];
    from_river.community_revealed = 5;
    run_out_to_showdown(&mut from_river, &deck);
    assert_eq!(from_river.phase, GamePhase::Showdown);
    assert_eq!(from_river.community_cards, [1, 2, 3, 4, 5]);
}

#[test]
fn actions_are_checked_without_change() {
    let table = Table {
        authority: [0u8; 32],
        table_id: [7u8; 32],
        small_blind: 10,
        big_blind: 20,
        min_buy_in: 200,
        max_buy_in: 2000,
        max_players: 6,
        current_players: 4,
        status: TableStatus::Playing,
        hand_number: 1,
        occupied_seats: 0b101101,
        dealer_position: 1,
        last_ready_time: 0,
        bump: 0,
    };
    let hand = betting_hand();
    let seat = PlayerSeat {
        table: [7u8; 32],
        player: [1u8; 32],
        seat_index: 3,
        chips: 100,
        current_bet: 0,
        total_bet_this_hand: 0,
        hole_card_1: 0,
        hole_card_2: 0,
        revealed_card_1: 255,
        revealed_card_2: 255,
        cards_revealed: false,
        status: PlayerStatus::Playing,
        has_acted: false,
        bump: 0,
    };
    assert_eq!(check_action(&table, &hand, &seat, Action::Fold), Ok(()));
    assert_eq!(check_action(&table, &hand, &seat, Action::Call), Ok(()));
    assert_eq!(check_action(&table, &hand, &seat, Action::AllIn), Ok(()));
    assert_eq!(check_action(&table, &hand, &seat, Action::Raise { amount: 40 }), Ok(()));
    assert_eq!(check_action(&table, &hand, &seat, Action::Check), Err(HiddenHandError::CannotCheck));
    assert_eq!(
        check_action(&table, &hand, &seat, Action::Raise { amount: 20 }),
        Err(HiddenHandError::RaiseTooSmall)
    );
    // The raise counts as announced, whatever the stack.
    assert_eq!(check_action(&table, &hand, &seat, Action::Raise { amount: 500 }), Ok(()));
}

#[test]
fn five_cards_are_valued_alone() {
    let wheel = evaluate_five_cards(&[12, 13, 27, 41, 3]);
    assert_eq!((wheel.rank, wheel.kickers), (HandRank::Straight, [3, 0, 0, 0, 0]));
    let broadway = evaluate_five_cards(&[8, 9 + 13, 10, 11, 12]);
    assert_eq!((broadway.rank, broadway.kickers), (HandRank::Straight, [12, 0, 0, 0, 0]));
    let royal = evaluate_five_cards(&[8 + 39, 9 + 39, 10 + 39, 11 + 39, 12 + 39]);
    assert_eq!((royal.rank, royal.kickers), (HandRank::RoyalFlush, [12, 11, 10, 9, 8]));
    let pair = evaluate_five_cards(&[0, 13, 5, 20, 40]);
    assert_eq!((pair.rank, pair.kickers), (HandRank::OnePair, [0, 7, 5, 1, 0]));
    assert_eq!(get_rank(51), 12);
    assert_eq!(get_suit(51), 3);
    assert_eq!(get_rank(13), 0);
    assert_eq!(get_suit(13), 1);
    assert_eq!(get_rank(255), 8);
    assert_eq!(get_suit(255), 19);
}

#[test]
fn empty_result_is_all_zero() {
    let empty = PlayerHandResult::default();
    assert_eq!(empty.player, [0u8; 32]);
    assert_eq!(empty.seat_index, 0);
    assert_eq!(empty.hole_card_1, 0);
    assert_eq!(empty.hole_card_2, 0);
    assert_eq!(empty.hand_rank, 0);
    assert_eq!(empty.chips_won, 0);
    assert_eq!(empty.chips_bet, 0);
    assert!(!empty.folded);
    assert!(!empty.all_in);
}
