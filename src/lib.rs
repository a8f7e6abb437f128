//! A two-nation tank battle: roster costing, fleet expansion and the
//! round-by-round combat engine.
pub mod battle;
pub mod roster;
