//! Where each field lies. Every range is half-open, `start..end`, and counts
//! from the start of the active save block unless it says otherwise.

pub mod active;
pub mod general;
pub mod save;
pub mod stored;
