//! The matching-engine core of a limit-order exchange: exact decimals, price
//! levels, half-books, the per-symbol matching engine and the service that
//! routes commands to it.

pub mod config;
pub mod decimal;
pub mod errors;
pub mod events;
pub mod half_book;
pub mod handlers;
pub mod matching;
pub mod models;
pub mod price_level;
pub mod seqs;
pub mod services;
pub mod sink;
pub mod symbol;
pub mod text;
