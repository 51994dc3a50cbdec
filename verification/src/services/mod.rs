//! The engine of one symbol and the service that owns the engines.

pub mod order_book_service;
pub mod order_service;
