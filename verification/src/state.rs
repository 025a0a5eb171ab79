//! The records of the territory: the country, the occupancy grid, the plots,
//! and the payloads that are handed back after an operation.

use crate::address::Address;
use crate::geometry::Rectangle;
use vstd::prelude::*;

verus! {

/// The number of unit cells that a country must have.
pub const REQUIRED_TOTAL_UNITS: u64 = 10_000_000_000;

/// The country: its bounds, how much of it is sold, and where payments go.
#[derive(Clone, Debug)]
pub struct CountryState {
    pub authority: Address,
    pub width: u64,
    pub height: u64,
    pub total_units: u64,
    pub units_sold: u64,
    pub payment_mint: Address,
    pub price_per_unit: u64,
    pub treasury: Address,
    pub regions: Vec<Region>,
}

/// Which cells are claimed and by which plot, and which plots start in
/// which region.
#[derive(Clone, Debug)]
pub struct GridState {
    pub occupied_coordinates: Vec<CoordinateMapping>,
    pub region_plots: Vec<RegionMapping>,
}

/// One claimed cell and the plot that holds it.
#[derive(Clone, Copy, Debug, PartialEq, Eq, Structural)]
pub struct CoordinateMapping {
    pub x: u64,
    pub y: u64,
    pub plot: Address,
}

/// The plots whose origin lies in one region.
#[derive(Clone, Debug)]
pub struct RegionMapping {
    pub region_id: u64,
    pub plots: Vec<Address>,
}

/// A plot: a rectangle of cells with an owner.
///
/// `neighbors` and `region_id` are computed when the plot is created or
/// reshaped. The neighbours are a record of that moment: a later change to
/// another plot does not reach them.
#[derive(Clone, Debug)]
pub struct LandPlot {
    pub id: Address,
    pub owner: Address,
    pub start_x: u64,
    pub start_y: u64,
    pub width: u64,
    pub height: u64,
    pub is_listed: bool,
    pub price_per_unit: u64,
    pub timestamp: i64,
    pub neighbors: Vec<Address>,
    pub region_id: u64,
}

/// A named region of the country.
#[derive(Clone, Debug)]
pub struct Region {
    pub id: u64,
    pub name: String,
    pub plots: Vec<Address>,
}

/// What is asked of a new country.
#[derive(Clone, Copy, Debug, PartialEq, Eq, Structural)]
pub struct InitializeCountryArgs {
    pub width: u64,
    pub height: u64,
    pub price_per_unit: u64,
}

/// The rectangle that a buyer asks for.
#[derive(Clone, Copy, Debug, PartialEq, Eq, Structural)]
pub struct PurchaseLandArgs {
    pub start_x: u64,
    pub start_y: u64,
    pub width: u64,
    pub height: u64,
}

/// The rectangle that is to be cut out of a plot.
#[derive(Clone, Copy, Debug, PartialEq, Eq, Structural)]
pub struct SplitPlotArgs {
    pub split_x: u64,
    pub split_y: u64,
    pub width: u64,
    pub height: u64,
}

/// Handed back when a country has been set up.
#[derive(Clone, Copy, Debug, PartialEq, Eq, Structural)]
pub struct CountryInitialized {
    pub authority: Address,
    pub width: u64,
    pub height: u64,
    pub payment_mint: Address,
}

/// Handed back when a plot has been allocated.
#[derive(Clone, Copy, Debug, PartialEq, Eq, Structural)]
pub struct LandPurchased {
    pub buyer: Address,
    pub plot: Address,
    pub start_x: u64,
    pub start_y: u64,
    pub width: u64,
    pub height: u64,
    pub price: u64,
}

/// Handed back when a plot has been split.
#[derive(Clone, Copy, Debug, PartialEq, Eq, Structural)]
pub struct PlotSplit {
    pub original_plot: Address,
    pub new_plot: Address,
    pub split_x: u64,
    pub split_y: u64,
    pub width: u64,
    pub height: u64,
}

/// Handed back when two plots have been merged.
#[derive(Clone, Copy, Debug, PartialEq, Eq, Structural)]
pub struct PlotsMerged {
    pub plot_a: Address,
    pub plot_b: Address,
    pub new_x: u64,
    pub new_y: u64,
    pub new_width: u64,
    pub new_height: u64,
}

impl CountryState {
    /// The whole country as a rectangle at the origin.
    pub open spec fn bounds(self) -> Rectangle {
        Rectangle { x: 0, y: 0, width: self.width, height: self.height }
    }

    /// The country has area, its unit count is the product of its sides,
    /// and no more is sold than there is.
    pub open spec fn wf(self) -> bool {
        &&& self.width > 0
        &&& self.height > 0
        &&& self.total_units == self.width * self.height
        &&& self.units_sold <= self.total_units
    }
}

impl LandPlot {
    /// The rectangle that the plot covers.
    pub open spec fn rect(self) -> Rectangle {
        Rectangle { x: self.start_x, y: self.start_y, width: self.width, height: self.height }
    }

    /// The plot's rectangle as a value.
    pub fn rectangle(&self) -> (r: Rectangle)
        ensures
            r == self.rect(),
    {
        Rectangle { x: self.start_x, y: self.start_y, width: self.width, height: self.height }
    }
}

impl GridState {
    /// A grid on which nothing is claimed.
    pub fn new() -> (grid: GridState)
        ensures
            grid.occupied_coordinates@.len() == 0,
            grid.region_plots@.len() == 0,
    {
        GridState { occupied_coordinates: Vec::new(), region_plots: Vec::new() }
    }
}

} // verus!
