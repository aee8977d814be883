//! The records the engine works on and the hand evaluator.

pub mod deck;
pub mod hand;
pub mod hand_eval;
pub mod player;
pub mod seat_mask;
pub mod table;
