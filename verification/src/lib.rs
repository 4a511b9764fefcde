//! A verified engine for a subset of the card game Radlands, together with the
//! card-multiset and search utilities that an AI player builds on.

pub mod cards;
pub mod radlands;
