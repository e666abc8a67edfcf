//! A lottery engine driven by primality: every draw composes a candidate
//! number from chain state and tests it for primality.

pub mod math_utils;
pub mod number_theory;
pub mod host;
pub mod identity;
pub mod accounts;
pub mod composer;
pub mod rankings;
pub mod treasury;
pub mod engine;
pub mod laws;
