//! A gridded territory of rectangular land plots.
//!
//! The territory is a finite grid of unit cells. Plots are axis-aligned
//! rectangles of cells that never overlap; they can be allocated, split,
//! merged and listed. Every executable function carries a contract over a
//! mathematical model of the data it works on.

pub mod address;
pub mod error;
pub mod geometry;
pub mod market;
pub mod citizenship;
pub mod payment;
pub mod state;
pub mod region;
pub mod plots;
pub mod grid;
pub mod territory;
pub mod audit;
