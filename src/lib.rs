//! A block-based transaction fee market simulator: an ordered transaction pool with
//! greedy block filling, a demand curve sampled by inverse transform, and a price
//! controller driven by recent block fullness.

pub mod sort_key;
pub mod sorted_list;
pub mod transaction;
pub mod block;
pub mod demand;
pub mod simulator;

pub use crate::simulator::FeeMarketSimulator;
