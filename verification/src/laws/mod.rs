//! What holds of the parser as a whole.

pub mod blocks;
pub mod chunking;
pub mod conservation;
pub mod effects;
pub mod events;
pub mod fences;
pub mod formats;
pub mod headers;
pub mod joining;
pub mod literals;
pub mod messages;
pub mod numbering;
pub mod objects;
pub mod outputs;
pub mod progress;
pub mod readings;
pub mod round_trip;
pub mod scans;
pub mod stability;
pub mod stream;
