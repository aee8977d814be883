//! Limits and timing windows of the table.

use vstd::prelude::*;

verus! {

/// Most seats a table can have.
pub const MAX_PLAYERS: u8 = 6;

/// Fewest seated players a hand can start with.
pub const MIN_PLAYERS: u8 = 2;

/// Cards in a deck.
pub const DECK_SIZE: usize = 52;

/// Hole cards per player.
pub const HOLE_CARDS: usize = 2;

/// Community cards on a full board.
pub const COMMUNITY_CARDS: usize = 5;

/// Value of a community or shown hole card slot that holds no card.
pub const CARD_NOT_REVEALED: u8 = 255;

/// Seconds a player has to act before anyone may force the default action.
pub const ACTION_TIMEOUT_SECONDS: i64 = 60;

/// Seconds the table operator has to deal before anyone may deal.
pub const DEAL_TIMEOUT_SECONDS: i64 = 30;

/// Seconds a player has to show cards at showdown before anyone may muck
/// the hand.
pub const REVEAL_TIMEOUT_SECONDS: i64 = 180;

/// Seconds a table has to wait without a hand before anyone may close it.
pub const TABLE_INACTIVE_TIMEOUT_SECONDS: i64 = 3600;

/// Seconds after which funds may be withdrawn from a stalled table.
pub const EMERGENCY_TIMEOUT_SECONDS: i64 = 86400;

/// A raise must reach at least this multiple of the current bet.
pub const MIN_RAISE_MULTIPLIER: u64 = 2;

} // verus!
