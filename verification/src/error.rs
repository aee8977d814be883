//! Reasons for which the engine rejects a request.

use vstd::prelude::*;

verus! {

/// Every rejection carries one of these reasons. A rejected request leaves
/// all state as it was.
#[derive(Clone, Copy, PartialEq, Eq, Debug, Structural)]
pub enum HiddenHandError {
    /// Table is full.
    TableFull,
    /// Table is not full enough to start.
    NotEnoughPlayers,
    /// Player is not at this table.
    PlayerNotAtTable,
    /// Player is already at this table.
    PlayerAlreadyAtTable,
    /// Invalid seat index.
    InvalidSeatIndex,
    /// Seat is already occupied.
    SeatOccupied,
    /// Seat is empty.
    SeatEmpty,
    /// Not player's turn.
    NotPlayersTurn,
    /// Invalid action for current game state.
    InvalidAction,
    /// Insufficient chips.
    InsufficientChips,
    /// Buy-in amount out of range.
    InvalidBuyIn,
    /// Hand is not in progress.
    HandNotInProgress,
    /// Hand is already in progress.
    HandAlreadyInProgress,
    /// Cannot fold: no bet to fold from.
    CannotFold,
    /// Cannot check: must call or raise.
    CannotCheck,
    /// Raise amount too small.
    RaiseTooSmall,
    /// Betting round not complete.
    BettingRoundNotComplete,
    /// Invalid phase for this action.
    InvalidPhase,
    /// Player action timeout.
    ActionTimeout,
    /// Player has not timed out yet.
    ActionNotTimedOut,
    /// Only table authority can perform this action.
    UnauthorizedAuthority,
    /// Showdown requires at least 2 active players.
    ShowdownRequiresPlayers,
    /// Invalid card index.
    InvalidCardIndex,
    /// Deck already shuffled for this hand.
    DeckAlreadyShuffled,
    /// Deck not yet shuffled.
    DeckNotShuffled,
    /// Cards not yet dealt.
    CardsNotDealt,
    /// All community cards already revealed.
    AllCardsRevealed,
    /// Player has already folded.
    PlayerFolded,
    /// Player is already all-in.
    PlayerAlreadyAllIn,
    /// Table is not in waiting state.
    TableNotWaiting,
    /// Cannot leave during active hand.
    CannotLeaveDuringHand,
    /// Arithmetic overflow.
    Overflow,
    /// The same seat was provided twice.
    DuplicateAccount,
    /// Invalid remaining accounts.
    InvalidRemainingAccounts,
    /// Invalid account count.
    InvalidAccountCount,
    /// Cards have already been revealed.
    CardsAlreadyRevealed,
    /// Player is not active (folded or not playing).
    PlayerNotActive,
    /// Invalid card value: must be 0 to 51.
    InvalidCard,
    /// Signature verification failed.
    Ed25519VerificationFailed,
    /// All active players must reveal before showdown can complete.
    PlayersNotRevealed,
    /// The waiting time has not passed yet.
    TimeoutNotReached,
}

} // verus!
