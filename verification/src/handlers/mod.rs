//! What the edge hands to the services.

pub mod orders;
