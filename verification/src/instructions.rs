//! The transitions of a table and its hand, one module per request.

pub mod callback_shuffle;
pub mod close_inactive_table;
pub mod create_table;
pub mod deal_cards;
pub mod join_table;
pub mod leave_table;
pub mod player_action;
pub mod reveal_cards;
pub mod showdown;
pub mod start_hand;
pub mod timeout_player;
pub mod timeout_reveal;
