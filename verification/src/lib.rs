//! Dice and range roll expressions: classify a token, resolve it to a roll
//! configuration, and evaluate that configuration with random samples.

pub mod arguments;
pub mod decimal;
pub mod rolls;
pub mod theorems;
