//! The rules of a thumbnail tool.
pub mod elapsed;
pub mod error;
pub mod paths;
pub mod resize;
pub mod stats;
