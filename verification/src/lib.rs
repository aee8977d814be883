//! Rules engine for a Texas Hold'em poker table: hand ranking, the betting
//! round state machine, showdown settlement and the timeout policies that keep
//! a hand moving.

pub mod constants;
pub mod error;
pub mod events;
pub mod inco_cpi;
pub mod instructions;
pub mod state;
