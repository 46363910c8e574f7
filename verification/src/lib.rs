//! Client-side core for a concentrated-liquidity market maker: deterministic
//! account addresses, tick-array routing over the pool's bitmaps, and the
//! binary codec for accounts, instructions and logged events.

pub mod accounts;
pub mod address;
pub mod bitmap;
pub mod builder;
pub mod codec;
pub mod config;
pub mod error;
pub mod event;
pub mod instruction;
pub mod liquidity;
pub mod log;
pub mod position;
pub mod router;
pub mod state;
pub mod tick;
pub mod tick_math;
pub mod wide;
pub mod wire;
