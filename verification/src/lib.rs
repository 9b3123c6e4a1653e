//! Verified core of a Secret Network roulette and request-queue contract.

pub mod cipher;
pub mod coins;
pub mod entropy;
pub mod error;
pub mod game;
pub mod ledger;
pub mod msg;
pub mod round;
pub mod setup;
