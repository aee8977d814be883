//! One hand from deal to settlement: phase, pot, whose turn it is and the
//! sets of seats that are active, have acted and are all-in.

use vstd::prelude::*;
use crate::constants::{CARD_NOT_REVEALED, MAX_PLAYERS, MIN_PLAYERS};
use crate::state::seat_mask::{
    lemma_mask_empty, mask_add, mask_below, mask_count, mask_diff, mask_has, mask_minus,
    mask_is_below, mask_next, mask_remove, mask_size, mask_test, mask_with, mask_without,
    next_in_mask,
};

verus! {

/// Phases of a hand, in the order in which they follow each other.
#[derive(Clone, Copy, PartialEq, Eq, Debug, Structural)]
pub enum GamePhase {
    /// Cards being dealt.
    Dealing,
    /// Betting after the hole cards.
    PreFlop,
    /// Betting with three community cards.
    Flop,
    /// Betting with four community cards.
    Turn,
    /// Betting with five community cards.
    River,
    /// Hands are shown.
    Showdown,
    /// Hand complete, pot distributed.
    Settled,
}

impl Default for GamePhase {
    fn default() -> (p: Self)
        ensures
            p == GamePhase::Dealing,
    {
        GamePhase::Dealing
    }
}

impl GamePhase {
    /// Position of the phase in the course of a hand, 0 for dealing up to 6
    /// for settled.
    pub open spec fn index(self) -> nat {
        match self {
            GamePhase::Dealing => 0,
            GamePhase::PreFlop => 1,
            GamePhase::Flop => 2,
            GamePhase::Turn => 3,
            GamePhase::River => 4,
            GamePhase::Showdown => 5,
            GamePhase::Settled => 6,
        }
    }

    /// The four phases in which players bet.
    pub open spec fn is_betting(self) -> bool {
        self == GamePhase::PreFlop || self == GamePhase::Flop || self == GamePhase::Turn || self
            == GamePhase::River
    }

    /// The phase that follows; settled stays settled.
    pub open spec fn next(self) -> GamePhase {
        match self {
            GamePhase::Dealing => GamePhase::PreFlop,
            GamePhase::PreFlop => GamePhase::Flop,
            GamePhase::Flop => GamePhase::Turn,
            GamePhase::Turn => GamePhase::River,
            GamePhase::River => GamePhase::Showdown,
            GamePhase::Showdown => GamePhase::Settled,
            GamePhase::Settled => GamePhase::Settled,
        }
    }

    /// Number of community cards on the board during a betting phase, and
    /// before the first of them.
    pub open spec fn board_size(self) -> u8 {
        match self {
            GamePhase::Dealing => 0,
            GamePhase::PreFlop => 0,
            GamePhase::Flop => 3,
            GamePhase::Turn => 4,
            _ => 5,
        }
    }

    /// Whether players bet in this phase.
    pub fn is_betting_phase(&self) -> (r: bool)
        ensures
            r == self.is_betting(),
    {
        match self {
            GamePhase::PreFlop | GamePhase::Flop | GamePhase::Turn | GamePhase::River => true,
            _ => false,
        }
    }
}

/// State of one hand.
#[derive(Clone, Copy, Debug)]
pub struct HandState {
    /// Table the hand is played at.
    pub table: [u8; 32],
    /// Number of the hand at its table.
    pub hand_number: u64,
    /// Current phase.
    pub phase: GamePhase,
    /// Total pot.
    pub pot: u64,
    /// Current bet to call.
    pub current_bet: u64,
    /// Minimum raise increment.
    pub min_raise: u64,
    /// Dealer seat of this hand.
    pub dealer_position: u8,
    /// Seat whose turn it is.
    pub action_on: u8,
    /// Community cards, 255 where not revealed.
    pub community_cards: [u8; 5],
    /// Number of community cards revealed: 0, 3, 4 or 5.
    pub community_revealed: u8,
    /// Seats still in the hand, one bit per seat.
    pub active_players: u8,
    /// Seats that have acted in this betting round.
    pub acted_this_round: u8,
    /// Number of seats still in the hand.
    pub active_count: u8,
    /// Seats that are all-in.
    pub all_in_players: u8,
    /// Time of the last event that changed the hand, in seconds.
    pub last_action_time: i64,
    /// Time at which the hand started, in seconds.
    pub hand_start_time: i64,
    /// Discriminating byte of the record's storage address.
    pub bump: u8,
}

impl HandState {
    /// Stored size of a hand record in bytes.
    pub const SIZE: usize = 8 + 32 + 8 + 1 + 8 + 8 + 8 + 1 + 1 + 5 + 1 + 1 + 1 + 1 + 1 + 8 + 8 + 1;

    /// Seat `seat` has not folded.
    pub open spec fn is_active(&self, seat: u8) -> bool {
        mask_has(self.active_players, seat)
    }

    /// Seat `seat` has acted in this betting round.
    pub open spec fn has_acted(&self, seat: u8) -> bool {
        mask_has(self.acted_this_round, seat)
    }

    /// Seat `seat` is all-in.
    pub open spec fn is_all_in(&self, seat: u8) -> bool {
        mask_has(self.all_in_players, seat)
    }

    /// Seat `seat` can still bet: it is active and not all-in.
    pub open spec fn can_bet(&self, seat: u8) -> bool {
        self.is_active(seat) && !self.is_all_in(seat)
    }

    /// Seat `seat` still has to act in this betting round.
    pub open spec fn needs_to_act(&self, seat: u8) -> bool {
        self.can_bet(seat) && !self.has_acted(seat)
    }

    /// The set of seats that can still bet.
    pub open spec fn bettors(&self) -> u8 {
        mask_diff(self.active_players, self.all_in_players)
    }

    /// The set of seats that still have to act in this betting round.
    pub open spec fn waiting(&self) -> u8 {
        mask_diff(self.bettors(), self.acted_this_round)
    }

    /// Further betting is possible: at least two seats can bet.
    pub open spec fn betting_open(&self) -> bool {
        mask_count(self.bettors()) >= 2
    }

    /// Every seat that can bet has acted in this round.
    pub open spec fn round_complete(&self) -> bool {
        forall|s: u8| self.can_bet(s) ==> #[trigger] self.has_acted(s)
    }

    /// Validity of a hand at a table of `max_players` seats: the seat sets
    /// hold only seats of the table, the count of active seats is the size
    /// of the active set, the board grows with the phase, and while players
    /// bet at least two seats are active and the turn is on a seat that
    /// still has to act.
    pub open spec fn wf(&self, max_players: u8) -> bool {
        &&& MIN_PLAYERS <= max_players <= MAX_PLAYERS
        &&& self.dealer_position < max_players
        &&& self.action_on < max_players
        &&& mask_below(self.active_players, max_players)
        &&& mask_below(self.all_in_players, max_players)
        &&& mask_below(self.acted_this_round, max_players)
        &&& self.active_count == mask_count(self.active_players)
        &&& (self.community_revealed == 0 || self.community_revealed == 3
            || self.community_revealed == 4 || self.community_revealed == 5)
        &&& forall|i: int|
            self.community_revealed <= i < 5 ==> self.community_cards@[i] == CARD_NOT_REVEALED
        &&& self.phase.is_betting() ==> {
            &&& self.community_revealed == self.phase.board_size()
            &&& self.active_count >= 2
            &&& self.needs_to_act(self.action_on)
        }
        &&& self.phase == GamePhase::Dealing ==> self.community_revealed == 0
    }

    /// Whether the hand is valid at a table of `max_players` seats.
    pub fn is_valid(&self, max_players: u8) -> (r: bool)
        ensures
            r == self.wf(max_players),
    {
        if !(MIN_PLAYERS <= max_players && max_players <= MAX_PLAYERS) {
            return false;
        }
        if self.dealer_position >= max_players || self.action_on >= max_players {
            return false;
        }
        if !mask_is_below(self.active_players, max_players) || !mask_is_below(
            self.all_in_players,
            max_players,
        ) || !mask_is_below(self.acted_this_round, max_players) {
            return false;
        }
        if self.active_count != mask_size(self.active_players) {
            return false;
        }
        let revealed = self.community_revealed;
        if !(revealed == 0 || revealed == 3 || revealed == 4 || revealed == 5) {
            return false;
        }
        let mut i: u8 = revealed;
        while i < 5
            invariant
                revealed <= i <= 5,
                revealed == self.community_revealed,
                forall|k: int| revealed <= k < i ==> self.community_cards@[k] == CARD_NOT_REVEALED,
            decreases 5 - i,
        {
            if self.community_cards[i as usize] != CARD_NOT_REVEALED {
                return false;
            }
            i += 1;
        }
        let board_size: u8 = match self.phase {
            GamePhase::Dealing | GamePhase::PreFlop => 0,
            GamePhase::Flop => 3,
            GamePhase::Turn => 4,
            _ => 5,
        };
        if self.phase.is_betting_phase() {
            if revealed != board_size || self.active_count < 2 {
                return false;
            }
            let seat = self.action_on;
            if !self.is_player_active(seat) || self.is_player_all_in(seat) || self.has_player_acted(
                seat,
            ) {
                return false;
            }
        }
        match self.phase {
            GamePhase::Dealing => revealed == 0,
            _ => true,
        }
    }

    /// Whether the seat is still active in the hand.
    pub fn is_player_active(&self, seat_index: u8) -> (r: bool)
        requires
            seat_index < 8,
        ensures
            r == self.is_active(seat_index),
    {
        mask_test(self.active_players, seat_index)
    }

    /// Marks the seat as folded: it leaves the active set, and the count of
    /// active seats goes down by one (never below zero).
    pub fn fold_player(&mut self, seat_index: u8)
        requires
            seat_index < 8,
        ensures
            *final(self) == (HandState {
                active_players: mask_remove(old(self).active_players, seat_index),
                active_count: if old(self).active_count > 0 {
                    (old(self).active_count - 1) as u8
                } else {
                    0
                },
                ..*old(self)
            }),
            forall|s: u8|
                #[trigger] final(self).is_active(s) == (old(self).is_active(s) && s != seat_index),
            mask_count(final(self).active_players) == mask_count(old(self).active_players) - (
            if old(self).is_active(seat_index) {
                1nat
            } else {
                0nat
            }),
    {
        self.active_players = mask_without(self.active_players, seat_index);
        self.active_count = self.active_count.saturating_sub(1);
    }

    /// Whether the seat has acted in this betting round.
    pub fn has_player_acted(&self, seat_index: u8) -> (r: bool)
        requires
            seat_index < 8,
        ensures
            r == self.has_acted(seat_index),
    {
        mask_test(self.acted_this_round, seat_index)
    }

    /// Marks the seat as having acted.
    pub fn mark_acted(&mut self, seat_index: u8)
        requires
            seat_index < 8,
        ensures
            *final(self) == (HandState {
                acted_this_round: mask_add(old(self).acted_this_round, seat_index),
                ..*old(self)
            }),
            forall|s: u8|
                #[trigger] final(self).has_acted(s) == (old(self).has_acted(s) || s == seat_index),
    {
        self.acted_this_round = mask_with(self.acted_this_round, seat_index);
    }

    /// Starts a new betting round: nobody has acted, nothing is to call.
    pub fn reset_betting_round(&mut self)
        ensures
            *final(self) == (HandState { acted_this_round: 0, current_bet: 0, ..*old(self) }),
            forall|s: u8| !final(self).has_acted(s),
    {
        self.acted_this_round = 0;
        self.current_bet = 0;
        proof {
            lemma_mask_empty(0u8);
        }
    }

    /// Marks the seat as all-in.
    pub fn mark_all_in(&mut self, seat_index: u8)
        requires
            seat_index < 8,
        ensures
            *final(self) == (HandState {
                all_in_players: mask_add(old(self).all_in_players, seat_index),
                ..*old(self)
            }),
            forall|s: u8|
                #[trigger] final(self).is_all_in(s) == (old(self).is_all_in(s) || s == seat_index),
    {
        self.all_in_players = mask_with(self.all_in_players, seat_index);
    }

    /// Whether the seat is all-in.
    pub fn is_player_all_in(&self, seat_index: u8) -> (r: bool)
        requires
            seat_index < 8,
        ensures
            r == self.is_all_in(seat_index),
    {
        mask_test(self.all_in_players, seat_index)
    }

    /// The seats that can still bet: active and not all-in.
    pub fn players_who_can_bet(&self) -> (m: u8)
        ensures
            m == self.bettors(),
            forall|s: u8| #[trigger] mask_has(m, s) == self.can_bet(s),
    {
        mask_minus(self.active_players, self.all_in_players)
    }

    /// Whether any further betting is possible: at least two seats must be
    /// able to bet.
    pub fn can_anyone_bet(&self) -> (r: bool)
        ensures
            r == self.betting_open(),
    {
        let can_bet = self.players_who_can_bet();
        mask_size(can_bet) >= 2
    }

    /// Whether the betting round is complete: every seat that can bet has
    /// acted.
    pub fn is_betting_complete(&self) -> (r: bool)
        ensures
            r == self.round_complete(),
            r == (forall|s: u8|
                self.is_active(s) && !self.is_all_in(s) ==> #[trigger] self.has_acted(s)),
            r == (self.waiting() == 0),
    {
        let can_bet = self.players_who_can_bet();
        let need_to_act = mask_minus(can_bet, self.acted_this_round);
        proof {
            lemma_mask_empty(need_to_act);
            if need_to_act == 0 {
                assert forall|s: u8| self.can_bet(s) implies #[trigger] self.has_acted(s) by {
                    assert(!mask_has(need_to_act, s));
                }
            } else {
                let s = choose|s: u8| mask_has(need_to_act, s);
                assert(self.can_bet(s) && !self.has_acted(s));
            }
        }
        need_to_act == 0
    }

    /// The next active seat clockwise of `after_seat`, if any seat is
    /// active; `after_seat` itself comes last.
    pub fn next_active_player(&self, after_seat: u8, max_players: u8) -> (r: Option<u8>)
        requires
            0 < max_players <= 8,
            after_seat < max_players,
        ensures
            r == next_in_mask(self.active_players, after_seat, max_players),
            r matches Some(s) ==> s < max_players && self.is_active(s),
            r is None <==> (forall|s: u8| s < max_players ==> !#[trigger] self.is_active(s)),
    {
        let r = mask_next(self.active_players, after_seat, max_players);
        proof {
            if forall|s: u8| s < max_players ==> !#[trigger] self.is_active(s) {
                assert forall|s: u8| s < max_players implies !#[trigger] mask_has(
                    self.active_players,
                    s,
                ) by {
                    assert(!self.is_active(s));
                }
            }
        }
        r
    }

    /// Moves to the next phase and starts a new betting round.
    pub fn advance_phase(&mut self)
        ensures
            *final(self) == (HandState {
                phase: old(self).phase.next(),
                acted_this_round: 0,
                current_bet: 0,
                ..*old(self)
            }),
    {
        self.phase = match self.phase {
            GamePhase::Dealing => GamePhase::PreFlop,
            GamePhase::PreFlop => GamePhase::Flop,
            GamePhase::Flop => GamePhase::Turn,
            GamePhase::Turn => GamePhase::River,
            GamePhase::River => GamePhase::Showdown,
            GamePhase::Showdown => GamePhase::Settled,
            GamePhase::Settled => GamePhase::Settled,
        };
        self.reset_betting_round();
    }
}

} // verus!
