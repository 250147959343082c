//! A genetic search for a high-value packing of axis-aligned rectangles inside
//! a circle centred at the origin.
//!
//! All lengths, coordinates and values are integers in a fixed-point unit of
//! the caller's choosing; propensities are parts per billion.
mod catalog;
mod chromosome;
mod evolution;
mod geometry;
mod mutation;

pub use catalog::{normalized_value, TaskData};
pub use chromosome::Chromosome;
pub use geometry::{Circle, Pos, Quadrant, Rect, ViableRect};
pub use mutation::MutationDraws;
pub use evolution::Evolution;
