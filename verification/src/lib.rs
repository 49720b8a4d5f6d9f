use vstd::prelude::*;

pub mod address;
pub mod data_api;
pub mod data_feed;
pub mod decimal;
pub mod keyed;
pub mod neuracle;
pub mod ranking;
pub mod stable_coin;
pub mod utilities;
pub mod validator;

verus! {
} // verus!
