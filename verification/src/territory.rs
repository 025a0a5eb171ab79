//! The territory: a country, its plots and its occupancy grid, kept in step.
//!
//! Every operation checks all that it has to check before it changes
//! anything. An operation that is refused leaves the territory as it was;
//! one that succeeds leaves it well formed: the plots lie inside the
//! country, no two of them share a cell, the grid claims exactly the cells
//! of the plots, and the region index files every plot under the region of
//! its origin.

use crate::address::Address;
use crate::error::LandError;
use crate::geometry::{
    bounding_box,
    lemma_area_bounded,
    lemma_bounding_box_is_unique,
    lemma_equal_area_tiles,
    lemma_overlap_is_common_cell,
    merged_bounds,
    rectangle_within,
    rectangles_adjacent,
    Rectangle,
};
use crate::grid::{
    claim_map,
    find_neighboring_plots,
    is_land_occupied,
    neighbor_set,
    release,
    update_grid_after_merge,
    update_grid_state,
};
use crate::payment::{area_price, price_of_area};
use crate::plots::{
    is_edge_aligned,
    lemma_cut_tiles,
    remainder_after,
    update_original_plot_after_split,
};
use crate::region::{calculate_region_id, lemma_region_fits, region_of};
use crate::state::{
    CountryInitialized,
    CountryState,
    GridState,
    InitializeCountryArgs,
    LandPlot,
    LandPurchased,
    PlotSplit,
    PlotsMerged,
    PurchaseLandArgs,
    SplitPlotArgs,
    REQUIRED_TOTAL_UNITS,
};
use vstd::prelude::*;

verus! {

/// A country with its plots and its grid.
#[derive(Clone, Debug)]
pub struct Territory {
    pub country: CountryState,
    pub grid: GridState,
    pub plots: Vec<LandPlot>,
}

impl Territory {
    /// `i` is the place of a plot in the store.
    pub open spec fn has_plot(self, i: int) -> bool {
        0 <= i < self.plots@.len()
    }

    /// The plot at place `i` has the name `id`.
    pub open spec fn names(self, i: int, id: Address) -> bool {
        self.has_plot(i) && self.plots@[i].id == id
    }

    /// Some plot has the name `id`.
    pub open spec fn knows(self, id: Address) -> bool {
        exists|i: int| self.names(i, id)
    }

    /// The place of the plot with the name `id`.
    pub open spec fn place_of(self, id: Address) -> int {
        choose|i: int| self.names(i, id)
    }

    /// The plot at place `i` covers the cell `(cx, cy)`.
    pub open spec fn plot_covers(self, i: int, cx: int, cy: int) -> bool {
        self.has_plot(i) && self.plots@[i].rect().covers(cx, cy)
    }

    /// The grid claims the cell `(cx, cy)`.
    pub open spec fn claimed(self, cx: int, cy: int) -> bool {
        self.grid.cells().contains_key((cx, cy))
    }

    /// The plot for which the grid claims the cell `(cx, cy)`.
    pub open spec fn holder(self, cx: int, cy: int) -> Address {
        self.grid.cells()[(cx, cy)]
    }

    /// The region index files the plot `p` under `region`.
    pub open spec fn filed(self, region: u64, p: Address) -> bool {
        self.grid.filed_under(region).contains(p)
    }

    /// The plot at place `i` has the name `p` and its origin in `region`.
    pub open spec fn starts_in(self, i: int, region: u64, p: Address) -> bool {
        &&& self.names(i, p)
        &&& region_of(self.plots@[i].start_x as int, self.plots@[i].start_y as int) == region
    }

    /// The plot at place `i` has area, lies inside the country, and
    /// remembers the region of its origin.
    pub open spec fn plot_fits(self, i: int) -> bool {
        &&& self.plots@[i].rect().has_area()
        &&& self.country.bounds().contains_rect(self.plots@[i].rect())
        &&& self.plots@[i].region_id == region_of(
            self.plots@[i].start_x as int,
            self.plots@[i].start_y as int,
        )
    }

    /// Every plot has area, lies inside the country, and remembers the
    /// region of its origin.
    pub open spec fn plots_fit(self) -> bool {
        forall|i: int| self.has_plot(i) ==> #[trigger] self.plot_fits(i)
    }

    /// No two plots have one name.
    pub open spec fn names_are_unique(self) -> bool {
        forall|i: int, j: int, id: Address|
            #![trigger self.names(i, id), self.names(j, id)]
            self.names(i, id) && self.names(j, id) ==> i == j
    }

    /// Every cell that the grid claims is covered by a plot.
    pub open spec fn claims_are_covered(self) -> bool {
        forall|cx: int, cy: int| #[trigger]
            self.claimed(cx, cy) ==> exists|i: int| self.plot_covers(i, cx, cy)
    }

    /// Every cell that a plot covers is claimed by the grid for that plot.
    pub open spec fn plots_are_claimed(self) -> bool {
        forall|i: int, cx: int, cy: int| #[trigger]
            self.plot_covers(i, cx, cy) ==> self.claimed(cx, cy) && self.holder(cx, cy)
                == self.plots@[i].id
    }

    /// The region index files a plot under a region exactly when the
    /// plot's origin lies there.
    pub open spec fn filing_is_exact(self) -> bool {
        forall|region: u64, p: Address| #[trigger]
            self.filed(region, p) <==> exists|i: int| self.starts_in(i, region, p)
    }

    /// The territory is well formed.
    ///
    /// The country and the grid are; every plot has area and lies inside
    /// the country; no two plots have one name; the grid claims a cell
    /// exactly when a plot covers it, and for that plot; and the region
    /// index files a plot under a region exactly when the plot's origin
    /// lies there.
    pub open spec fn wf(self) -> bool {
        &&& self.country.wf()
        &&& self.grid.wf()
        &&& self.plots_fit()
        &&& self.names_are_unique()
        &&& self.claims_are_covered()
        &&& self.plots_are_claimed()
        &&& self.filing_is_exact()
    }

    /// The place of the plot with the name `id`, if there is one.
    pub fn find_plot(&self, id: Address) -> (place: Option<usize>)
        ensures
            match place {
                Some(i) => self.names(i as int, id),
                None => !self.knows(id),
            },
    {
        let mut i: usize = 0;
        while i < self.plots.len()
            invariant
                i <= self.plots.len(),
                forall|j: int| 0 <= j < i ==> !self.names(j, id),
            decreases self.plots.len() - i,
        {
            if self.plots[i].id == id {
                return Some(i);
            }
            i += 1;
        }
        None
    }
}

/// No two plots of a well-formed territory share a cell.
pub proof fn lemma_plots_never_overlap(t: Territory, i: int, j: int)
    requires
        t.wf(),
        t.has_plot(i),
        t.has_plot(j),
        i != j,
    ensures
        t.plots@[i].rect().cells().disjoint(t.plots@[j].rect().cells()),
        !t.plots@[i].rect().overlaps(t.plots@[j].rect()),
{
    let a = t.plots@[i].rect();
    let b = t.plots@[j].rect();
    assert(t.plot_fits(i) && t.plot_fits(j));
    assert forall|c: (int, int)| !(a.cells().contains(c) && b.cells().contains(c)) by {
        if a.cells().contains(c) && b.cells().contains(c) {
            assert(t.plot_covers(i, c.0, c.1));
            assert(t.plot_covers(j, c.0, c.1));
            assert(t.names(i, t.plots@[i].id));
            assert(t.names(j, t.plots@[i].id));
        }
    }
    lemma_overlap_is_common_cell(a, b);
}

/// In a well-formed territory the cells that the grid holds for a plot are
/// exactly the cells of the plot's rectangle.
pub proof fn lemma_plot_holds_its_rectangle(t: Territory, i: int)
    requires
        t.wf(),
        t.has_plot(i),
    ensures
        forall|cx: int, cy: int|
            t.plots@[i].rect().covers(cx, cy) <==> t.grid.cells().contains_key((cx, cy))
                && t.grid.cells()[(cx, cy)] == t.plots@[i].id,
{
    assert forall|cx: int, cy: int|
        t.plots@[i].rect().covers(cx, cy) <==> t.grid.cells().contains_key((cx, cy))
            && t.grid.cells()[(cx, cy)] == t.plots@[i].id by {
        if t.plots@[i].rect().covers(cx, cy) {
            assert(t.plot_covers(i, cx, cy));
        }
        if t.grid.cells().contains_key((cx, cy)) && t.grid.cells()[(cx, cy)] == t.plots@[i].id {
            assert(t.claimed(cx, cy));
            let j = choose|j: int| t.plot_covers(j, cx, cy);
            assert(t.names(j, t.plots@[i].id));
            assert(t.names(i, t.plots@[i].id));
        }
    }
}

impl CountryState {
    /// `after` is this country with another count of units sold.
    pub open spec fn differs_in_units_sold_only(self, after: CountryState) -> bool {
        &&& after.authority == self.authority
        &&& after.width == self.width
        &&& after.height == self.height
        &&& after.total_units == self.total_units
        &&& after.payment_mint == self.payment_mint
        &&& after.price_per_unit == self.price_per_unit
        &&& after.treasury == self.treasury
        &&& after.regions == self.regions
    }
}

/// Why the sides of a new country are refused, if they are: a side is zero,
/// or the sides do not multiply to the unit count that a country must have.
pub open spec fn country_refusal(args: InitializeCountryArgs) -> Option<LandError> {
    if args.width == 0 || args.height == 0 || args.width * args.height != REQUIRED_TOTAL_UNITS {
        Some(LandError::InvalidDimensions)
    } else {
        None
    }
}

/// Sets up a country of `args.width` by `args.height` units with no plot in
/// it.
pub fn initialize_country(
    authority: Address,
    payment_mint: Address,
    treasury: Address,
    args: InitializeCountryArgs,
) -> (made: Result<(Territory, CountryInitialized), LandError>)
    ensures
        match country_refusal(args) {
            Some(e) => made matches Err(f) && f == e,
            None => made matches Ok(pair) && pair.0.wf() && pair.0.plots@.len() == 0
                && pair.0.grid.cells() == Map::<(int, int), Address>::empty()
                && pair.0.country.authority == authority && pair.0.country.width == args.width
                && pair.0.country.height == args.height && pair.0.country.total_units
                == REQUIRED_TOTAL_UNITS && pair.0.country.units_sold == 0
                && pair.0.country.payment_mint == payment_mint && pair.0.country.price_per_unit
                == args.price_per_unit && pair.0.country.treasury == treasury
                && pair.0.country.regions@.len() == 0 && pair.1 == (CountryInitialized {
                authority,
                width: args.width,
                height: args.height,
                payment_mint,
            }),
        },
{
    if args.width == 0 || args.height == 0 {
        return Err(LandError::InvalidDimensions);
    }
    assert(args.width * args.height <= u128::MAX) by (nonlinear_arith)
        requires
            args.width <= u64::MAX,
            args.height <= u64::MAX,
    ;
    let units = args.width as u128 * args.height as u128;
    if units != REQUIRED_TOTAL_UNITS as u128 {
        return Err(LandError::InvalidDimensions);
    }
    let country = CountryState {
        authority,
        width: args.width,
        height: args.height,
        total_units: REQUIRED_TOTAL_UNITS,
        units_sold: 0,
        payment_mint,
        price_per_unit: args.price_per_unit,
        treasury,
        regions: Vec::new(),
    };
    let territory = Territory { country, grid: GridState::new(), plots: Vec::new() };
    proof {
        assert forall|region: u64, p: Address| !territory.filed(region, p) by {}
    }
    Ok(
        (
            territory,
            CountryInitialized { authority, width: args.width, height: args.height, payment_mint },
        ),
    )
}

impl Territory {
    /// Why an allocation of `rect` under the name `plot_id` is refused, if
    /// it is. The checks come in this order: the rectangle lies inside the
    /// country, it has area, no cell of it is claimed, the name is not in
    /// use, the price fits in a `u64`, and the units sold stay within the
    /// country's unit count.
    pub open spec fn allocation_refusal(self, plot_id: Address, rect: Rectangle) -> Option<LandError> {
        if !self.country.bounds().contains_rect(rect) {
            Some(LandError::InvalidPlot)
        } else if !rect.has_area() {
            Some(LandError::InvalidDimensions)
        } else if !self.grid.is_free(rect) {
            Some(LandError::LandOccupied)
        } else if self.knows(plot_id) {
            Some(LandError::InvalidPlot)
        } else if area_price(self.country.price_per_unit, rect.width, rect.height) is None {
            Some(LandError::CalculationError)
        } else if self.country.units_sold + rect.area() > self.country.total_units {
            Some(LandError::CalculationError)
        } else {
            None
        }
    }

    /// `post` is `pre` after `rect` was allocated to `owner` under the name
    /// `plot_id` at the time `now`: the new plot stands last in the store,
    /// the grid claims its cells, the region of its origin files it, and
    /// its area is added to the units sold. Nothing else differs.
    pub open spec fn allocated(
        pre: Territory,
        post: Territory,
        plot_id: Address,
        owner: Address,
        rect: Rectangle,
        now: i64,
    ) -> bool {
        &&& post.plots@.len() == pre.plots@.len() + 1
        &&& post.plots@.drop_last() == pre.plots@
        &&& post.plots@.last().id == plot_id
        &&& post.plots@.last().owner == owner
        &&& post.plots@.last().rect() == rect
        &&& !post.plots@.last().is_listed
        &&& post.plots@.last().price_per_unit == 0
        &&& post.plots@.last().timestamp == now
        &&& post.plots@.last().neighbors@.no_duplicates()
        &&& post.plots@.last().neighbors@.to_set() == neighbor_set(post.grid.cells(), rect)
        &&& post.plots@.last().region_id == region_of(rect.x as int, rect.y as int)
        &&& post.grid.cells() == pre.grid.cells().union_prefer_right(claim_map(rect, plot_id))
        &&& forall|r: u64|
            #![trigger post.grid.filed_under(r)]
            post.grid.filed_under(r) == (if r == region_of(rect.x as int, rect.y as int) {
                pre.grid.filed_under(r).insert(plot_id)
            } else {
                pre.grid.filed_under(r)
            })
        &&& pre.country.differs_in_units_sold_only(post.country)
        &&& post.country.units_sold == pre.country.units_sold + rect.area()
    }

    /// Looks an allocation over without making it: the reason for which it
    /// would be refused, or else its price, which is the country's unit
    /// price times the rectangle's area.
    pub fn quote(&self, plot_id: Address, args: PurchaseLandArgs) -> (price: Result<u64, LandError>)
        ensures
            ({
                let rect = Rectangle {
                    x: args.start_x,
                    y: args.start_y,
                    width: args.width,
                    height: args.height,
                };
                match self.allocation_refusal(plot_id, rect) {
                    Some(e) => price == Err::<u64, LandError>(e),
                    None => price == Ok::<u64, LandError>(
                        area_price(self.country.price_per_unit, args.width, args.height).unwrap() as u64,
                    ) && price.unwrap() == self.country.price_per_unit * args.width * args.height,
                }
            }),
    {
        let bounds = Rectangle { x: 0, y: 0, width: self.country.width, height: self.country.height };
        if !rectangle_within(&bounds, args.start_x, args.start_y, args.width, args.height) {
            return Err(LandError::InvalidPlot);
        }
        if args.width == 0 || args.height == 0 {
            return Err(LandError::InvalidDimensions);
        }
        match is_land_occupied(&self.grid, args.start_x, args.start_y, args.width, args.height) {
            Ok(false) => {},
            Ok(true) => {
                return Err(LandError::LandOccupied);
            },
            Err(e) => {
                assert(false);
                return Err(e);
            },
        }
        if self.find_plot(plot_id).is_some() {
            return Err(LandError::InvalidPlot);
        }
        let price = match price_of_area(self.country.price_per_unit, args.width, args.height) {
            Some(p) => p,
            None => {
                return Err(LandError::CalculationError);
            },
        };
        let area = match args.width.checked_mul(args.height) {
            Some(a) => a,
            None => {
                return Err(LandError::CalculationError);
            },
        };
        match self.country.units_sold.checked_add(area) {
            Some(sold) => {
                if sold > self.country.total_units {
                    return Err(LandError::CalculationError);
                }
            },
            None => {
                return Err(LandError::CalculationError);
            },
        }
        Ok(price)
    }

    /// Allocates the rectangle `args` to `owner` as a new plot with the
    /// name `plot_id`, once its price is settled.
    ///
    /// The caller asks [`Territory::quote`] for the price, settles it, and
    /// hands in how that went. Where the settlement failed, its error is
    /// handed back and nothing changes. On success the plot is recorded
    /// with its neighbours and its region, the grid claims its cells, the
    /// units sold grow by its area, and the payload tells what was bought
    /// and at what price. On refusal nothing changes.
    pub fn allocate(
        &mut self,
        plot_id: Address,
        owner: Address,
        args: PurchaseLandArgs,
        settlement: Result<(), LandError>,
        now: i64,
    ) -> (bought: Result<LandPurchased, LandError>)
        requires
            old(self).wf(),
        ensures
            ({
                let rect = Rectangle {
                    x: args.start_x,
                    y: args.start_y,
                    width: args.width,
                    height: args.height,
                };
                match (old(self).allocation_refusal(plot_id, rect), settlement) {
                    (Some(e), _) => bought == Err::<LandPurchased, LandError>(e) && *final(self)
                        == *old(self),
                    (None, Err(e)) => bought == Err::<LandPurchased, LandError>(e) && *final(self)
                        == *old(self),
                    (None, Ok(_)) => bought == Ok::<LandPurchased, LandError>(
                        LandPurchased {
                            buyer: owner,
                            plot: plot_id,
                            start_x: args.start_x,
                            start_y: args.start_y,
                            width: args.width,
                            height: args.height,
                            price: area_price(
                                old(self).country.price_per_unit,
                                args.width,
                                args.height,
                            ).unwrap() as u64,
                        },
                    ) && final(self).wf() && Territory::allocated(
                        *old(self),
                        *final(self),
                        plot_id,
                        owner,
                        rect,
                        now,
                    ),
                }
            }),
    {
        let ghost pre = *self;
        let ghost rect = Rectangle {
            x: args.start_x,
            y: args.start_y,
            width: args.width,
            height: args.height,
        };
        let price = self.quote(plot_id, args)?;
        if let Err(e) = settlement {
            return Err(e);
        }
        let sold = self.country.units_sold + args.width * args.height;
        proof {
            lemma_region_fits(
                self.country.width as int,
                self.country.height as int,
                args.start_x as int,
                args.start_y as int,
            );
        }
        let region_id = match calculate_region_id(args.start_x, args.start_y) {
            Ok(r) => r,
            Err(e) => {
                return Err(e);
            },
        };
        match update_grid_state(
            &mut self.grid,
            args.start_x,
            args.start_y,
            args.width,
            args.height,
            plot_id,
        ) {
            Ok(()) => {},
            Err(e) => {
                return Err(e);
            },
        }
        let neighbors = match find_neighboring_plots(
            &self.grid,
            args.start_x,
            args.start_y,
            args.width,
            args.height,
        ) {
            Ok(n) => n,
            Err(e) => {
                return Err(e);
            },
        };
        self.plots.push(
            LandPlot {
                id: plot_id,
                owner,
                start_x: args.start_x,
                start_y: args.start_y,
                width: args.width,
                height: args.height,
                is_listed: false,
                price_per_unit: 0,
                timestamp: now,
                neighbors,
                region_id,
            },
        );
        self.country.units_sold = sold;
        proof {
            assert(self.plots@.drop_last() =~= pre.plots@);
            lemma_allocation_keeps_order(pre, *self, plot_id, owner, rect, now);
        }
        Ok(
            LandPurchased {
                buyer: owner,
                plot: plot_id,
                start_x: args.start_x,
                start_y: args.start_y,
                width: args.width,
                height: args.height,
                price,
            },
        )
    }
}

/// An allocation that is not refused leaves the territory well formed.
pub proof fn lemma_allocation_keeps_order(
    pre: Territory,
    post: Territory,
    plot_id: Address,
    owner: Address,
    rect: Rectangle,
    now: i64,
)
    requires
        pre.wf(),
        pre.allocation_refusal(plot_id, rect) is None,
        Territory::allocated(pre, post, plot_id, owner, rect, now),
        post.grid.wf(),
    ensures
        post.wf(),
{
    let n = pre.plots@.len() as int;
    assert forall|i: int| post.has_plot(i) implies #[trigger] post.plot_fits(i) by {
        if i < n {
            assert(pre.plot_fits(i));
        }
    }
    assert forall|i: int, j: int, id: Address|
        #![trigger post.names(i, id), post.names(j, id)]
        post.names(i, id) && post.names(j, id) implies i == j by {
        if i < n && j < n {
            assert(pre.names(i, id) && pre.names(j, id));
        } else if i < n {
            assert(pre.names(i, plot_id));
        } else if j < n {
            assert(pre.names(j, plot_id));
        }
    }
    assert forall|cx: int, cy: int| #[trigger] post.claimed(cx, cy) implies exists|i: int|
        post.plot_covers(i, cx, cy) by {
        if rect.covers(cx, cy) {
            assert(post.plot_covers(n, cx, cy));
        } else {
            assert(pre.claimed(cx, cy));
            let i = choose|i: int| pre.plot_covers(i, cx, cy);
            assert(post.plot_covers(i, cx, cy));
        }
    }
    assert forall|i: int, cx: int, cy: int| #[trigger]
        post.plot_covers(i, cx, cy) implies post.claimed(cx, cy) && post.holder(cx, cy)
        == post.plots@[i].id by {
        if i < n {
            assert(pre.plot_covers(i, cx, cy));
        }
    }
    let home = region_of(rect.x as int, rect.y as int);
    lemma_region_fits(pre.country.width as int, pre.country.height as int, rect.x as int, rect.y as int);
    assert forall|region: u64, p: Address| #[trigger]
        post.filed(region, p) <==> exists|i: int| post.starts_in(i, region, p) by {
        if post.filed(region, p) {
            if region == home && p == plot_id {
                assert(post.starts_in(n, region, p));
            } else {
                assert(pre.filed(region, p));
                let i = choose|i: int| pre.starts_in(i, region, p);
                assert(post.starts_in(i, region, p));
            }
        }
        if exists|i: int| post.starts_in(i, region, p) {
            let i = choose|i: int| post.starts_in(i, region, p);
            if i < n {
                assert(pre.starts_in(i, region, p));
                assert(pre.filed(region, p));
            }
        }
    }
}

/// A rectangle that overlaps a plot is never allocated: where it lies
/// inside the country and has area, the allocation is refused because the
/// land is occupied.
pub proof fn lemma_overlap_is_refused(t: Territory, plot_id: Address, rect: Rectangle, i: int)
    requires
        t.wf(),
        t.has_plot(i),
        t.country.bounds().contains_rect(rect),
        rect.has_area(),
        rect.overlaps(t.plots@[i].rect()),
    ensures
        t.allocation_refusal(plot_id, rect) == Some(LandError::LandOccupied),
{
    assert(t.plot_fits(i));
    lemma_overlap_is_common_cell(rect, t.plots@[i].rect());
    let (cx, cy) = choose|cx: int, cy: int| rect.covers(cx, cy) && t.plots@[i].rect().covers(cx, cy);
    assert(t.plot_covers(i, cx, cy));
}

impl Territory {
    /// Why a split of `part` off the plot `plot_id` is refused, if it is.
    /// The checks come in this order: the plot exists, the caller owns it,
    /// the part lies inside it, the part is a strip along its left or its
    /// top edge, and the name for the new plot is not in use.
    pub open spec fn split_refusal(
        self,
        plot_id: Address,
        new_plot_id: Address,
        caller: Address,
        part: Rectangle,
    ) -> Option<LandError> {
        if !self.knows(plot_id) {
            Some(LandError::InvalidPlot)
        } else if self.plots@[self.place_of(plot_id)].owner != caller {
            Some(LandError::NotOwner)
        } else if !self.plots@[self.place_of(plot_id)].rect().contains_rect(part) {
            Some(LandError::InvalidSplit)
        } else if !is_edge_aligned(self.plots@[self.place_of(plot_id)].rect(), part) {
            Some(LandError::NonContiguousPlot)
        } else if self.knows(new_plot_id) {
            Some(LandError::InvalidPlot)
        } else {
            None
        }
    }

    /// `post` is `pre` after `part` was split off the plot `plot_id` as a
    /// new plot `new_plot_id` at the time `now`.
    ///
    /// The old plot keeps its place and all but its rectangle and region:
    /// it covers what the cut leaves. The new plot stands last, belongs to
    /// the caller and covers the part. The grid gives the cells of the part
    /// to the new plot and is otherwise as before. The region index files
    /// both plots under the regions of their origins.
    pub open spec fn split_off(
        pre: Territory,
        post: Territory,
        plot_id: Address,
        new_plot_id: Address,
        caller: Address,
        part: Rectangle,
        now: i64,
    ) -> bool {
        let i = pre.place_of(plot_id);
        let rest = remainder_after(pre.plots@[i].rect(), part);
        &&& post.plots@.len() == pre.plots@.len() + 1
        &&& forall|j: int|
            0 <= j < pre.plots@.len() && j != i ==> #[trigger] post.plots@[j] == pre.plots@[j]
        &&& post.plots@[i].id == plot_id
        &&& post.plots@[i].owner == pre.plots@[i].owner
        &&& post.plots@[i].is_listed == pre.plots@[i].is_listed
        &&& post.plots@[i].price_per_unit == pre.plots@[i].price_per_unit
        &&& post.plots@[i].timestamp == pre.plots@[i].timestamp
        &&& post.plots@[i].neighbors == pre.plots@[i].neighbors
        &&& post.plots@[i].rect() == rest
        &&& post.plots@[i].region_id == region_of(rest.x as int, rest.y as int)
        &&& post.plots@.last().id == new_plot_id
        &&& post.plots@.last().owner == caller
        &&& post.plots@.last().rect() == part
        &&& !post.plots@.last().is_listed
        &&& post.plots@.last().price_per_unit == 0
        &&& post.plots@.last().timestamp == now
        &&& post.plots@.last().neighbors@.no_duplicates()
        &&& post.plots@.last().neighbors@.to_set() == neighbor_set(post.grid.cells(), part)
        &&& post.plots@.last().region_id == region_of(part.x as int, part.y as int)
        &&& post.grid.cells() == pre.grid.cells().union_prefer_right(claim_map(part, new_plot_id))
        &&& forall|r: u64|
            #![trigger post.grid.filed_under(r)]
            post.grid.filed_under(r) == refiled(
                refiled(pre.grid.filed_under(r).remove(plot_id), r, rest, plot_id),
                r,
                part,
                new_plot_id,
            )
        &&& post.country == pre.country
    }

    /// Splits the rectangle `args` off the plot `plot_id`, as a new plot
    /// with the name `new_plot_id` that belongs to the caller.
    ///
    /// Only a strip along the left or the top edge of the plot can be split
    /// off: what is left is then a rectangle again. On refusal nothing
    /// changes.
    pub fn split(
        &mut self,
        plot_id: Address,
        new_plot_id: Address,
        owner: Address,
        args: SplitPlotArgs,
        now: i64,
    ) -> (cut: Result<PlotSplit, LandError>)
        requires
            old(self).wf(),
        ensures
            ({
                let part = Rectangle {
                    x: args.split_x,
                    y: args.split_y,
                    width: args.width,
                    height: args.height,
                };
                match old(self).split_refusal(plot_id, new_plot_id, owner, part) {
                    Some(e) => cut == Err::<PlotSplit, LandError>(e) && *final(self) == *old(self),
                    None => cut == Ok::<PlotSplit, LandError>(
                        PlotSplit {
                            original_plot: plot_id,
                            new_plot: new_plot_id,
                            split_x: args.split_x,
                            split_y: args.split_y,
                            width: args.width,
                            height: args.height,
                        },
                    ) && final(self).wf() && Territory::split_off(
                        *old(self),
                        *final(self),
                        plot_id,
                        new_plot_id,
                        owner,
                        part,
                        now,
                    ),
                }
            }),
    {
        let ghost pre = *self;
        let ghost part = Rectangle {
            x: args.split_x,
            y: args.split_y,
            width: args.width,
            height: args.height,
        };
        let i = match self.find_plot(plot_id) {
            Some(i) => i,
            None => {
                return Err(LandError::InvalidPlot);
            },
        };
        proof {
            assert(pre.plot_fits(i as int));
        }
        if self.plots[i].owner != owner {
            return Err(LandError::NotOwner);
        }
        let whole = self.plots[i].rectangle();
        if !rectangle_within(&whole, args.split_x, args.split_y, args.width, args.height) {
            return Err(LandError::InvalidSplit);
        }
        let at_origin = args.split_x == whole.x && args.split_y == whole.y && args.width > 0
            && args.height > 0;
        let left = at_origin && args.height == whole.height && args.width < whole.width;
        let top = at_origin && args.width == whole.width && args.height < whole.height;
        if !left && !top {
            return Err(LandError::NonContiguousPlot);
        }
        if self.find_plot(new_plot_id).is_some() {
            return Err(LandError::InvalidPlot);
        }
        let ghost rest = remainder_after(whole, part);
        proof {
            lemma_cut_tiles(whole, part);
            lemma_plot_holds_its_rectangle(pre, i as int);
            lemma_region_fits(
                self.country.width as int,
                self.country.height as int,
                rest.x as int,
                rest.y as int,
            );
            lemma_region_fits(
                self.country.width as int,
                self.country.height as int,
                part.x as int,
                part.y as int,
            );
        }
        let (rest_x, rest_y, rest_width, rest_height) = if left {
            (whole.x + args.width, whole.y, whole.width - args.width, whole.height)
        } else {
            (whole.x, whole.y + args.height, whole.width, whole.height - args.height)
        };
        let rest_region = match calculate_region_id(rest_x, rest_y) {
            Ok(r) => r,
            Err(e) => {
                return Err(e);
            },
        };
        let part_region = match calculate_region_id(args.split_x, args.split_y) {
            Ok(r) => r,
            Err(e) => {
                return Err(e);
            },
        };
        release(&mut self.grid, plot_id);
        match update_grid_state(&mut self.grid, rest_x, rest_y, rest_width, rest_height, plot_id) {
            Ok(()) => {},
            Err(e) => {
                assert(false);
                return Err(e);
            },
        }
        match update_grid_state(
            &mut self.grid,
            args.split_x,
            args.split_y,
            args.width,
            args.height,
            new_plot_id,
        ) {
            Ok(()) => {},
            Err(e) => {
                assert(false);
                return Err(e);
            },
        }
        proof {
            assert(self.grid.cells() =~= pre.grid.cells().union_prefer_right(
                claim_map(part, new_plot_id),
            ));
        }
        let neighbors = match find_neighboring_plots(
            &self.grid,
            args.split_x,
            args.split_y,
            args.width,
            args.height,
        ) {
            Ok(n) => n,
            Err(e) => {
                assert(false);
                return Err(e);
            },
        };
        match update_original_plot_after_split(
            &mut self.plots[i],
            args.split_x,
            args.split_y,
            args.width,
            args.height,
        ) {
            Ok(()) => {},
            Err(e) => {
                assert(false);
                return Err(e);
            },
        }
        self.plots[i].region_id = rest_region;
        self.plots.push(
            LandPlot {
                id: new_plot_id,
                owner,
                start_x: args.split_x,
                start_y: args.split_y,
                width: args.width,
                height: args.height,
                is_listed: false,
                price_per_unit: 0,
                timestamp: now,
                neighbors,
                region_id: part_region,
            },
        );
        proof {
            lemma_split_keeps_order(pre, *self, plot_id, new_plot_id, owner, part, now);
        }
        Ok(
            PlotSplit {
                original_plot: plot_id,
                new_plot: new_plot_id,
                split_x: args.split_x,
                split_y: args.split_y,
                width: args.width,
                height: args.height,
            },
        )
    }
}

/// The plots filed under `region`, with `plot` added where the origin of
/// `rect` lies in that region.
pub open spec fn refiled(filed: Set<Address>, region: u64, rect: Rectangle, plot: Address) -> Set<
    Address,
> {
    if region == region_of(rect.x as int, rect.y as int) {
        filed.insert(plot)
    } else {
        filed
    }
}

/// A split that is not refused leaves the territory well formed.
pub proof fn lemma_split_keeps_order(
    pre: Territory,
    post: Territory,
    plot_id: Address,
    new_plot_id: Address,
    caller: Address,
    part: Rectangle,
    now: i64,
)
    requires
        pre.wf(),
        pre.split_refusal(plot_id, new_plot_id, caller, part) is None,
        Territory::split_off(pre, post, plot_id, new_plot_id, caller, part, now),
        post.grid.wf(),
    ensures
        post.wf(),
{
    let n = pre.plots@.len() as int;
    let i = pre.place_of(plot_id);
    assert(pre.plot_fits(i));
    let whole = pre.plots@[i].rect();
    let rest = remainder_after(whole, part);
    lemma_cut_tiles(whole, part);
    lemma_plot_holds_its_rectangle(pre, i);
    assert forall|j: int| post.has_plot(j) implies #[trigger] post.plot_fits(j) by {
        if j < n && j != i {
            assert(pre.plot_fits(j));
        }
    }
    assert forall|a: int, b: int, id: Address|
        #![trigger post.names(a, id), post.names(b, id)]
        post.names(a, id) && post.names(b, id) implies a == b by {
        if a < n {
            assert(pre.names(a, id));
        }
        if b < n {
            assert(pre.names(b, id));
        }
    }
    assert forall|cx: int, cy: int| #[trigger] post.claimed(cx, cy) implies exists|j: int|
        post.plot_covers(j, cx, cy) by {
        if part.covers(cx, cy) {
            assert(post.plot_covers(n, cx, cy));
        } else {
            assert(pre.claimed(cx, cy));
            let j = choose|j: int| pre.plot_covers(j, cx, cy);
            if j == i {
                assert(post.plot_covers(i, cx, cy));
            } else {
                assert(post.plot_covers(j, cx, cy));
            }
        }
    }
    assert forall|j: int, cx: int, cy: int| #[trigger]
        post.plot_covers(j, cx, cy) implies post.claimed(cx, cy) && post.holder(cx, cy)
        == post.plots@[j].id by {
        if j != i && j < n {
            assert(pre.plot_covers(j, cx, cy));
            if part.covers(cx, cy) {
                assert(pre.names(j, plot_id));
            }
        }
    }
    lemma_region_fits(pre.country.width as int, pre.country.height as int, rest.x as int, rest.y as int);
    lemma_region_fits(pre.country.width as int, pre.country.height as int, part.x as int, part.y as int);
    assert forall|region: u64, p: Address| #[trigger]
        post.filed(region, p) <==> exists|j: int| post.starts_in(j, region, p) by {
        if post.filed(region, p) {
            if p == new_plot_id {
                if region_of(part.x as int, part.y as int) == region {
                    assert(post.starts_in(n, region, p));
                } else {
                    assert(pre.filed(region, p));
                }
            } else if p == plot_id {
                assert(post.starts_in(i, region, p));
            } else {
                assert(pre.filed(region, p));
                let j = choose|j: int| pre.starts_in(j, region, p);
                assert(post.starts_in(j, region, p));
            }
        }
        if exists|j: int| post.starts_in(j, region, p) {
            let j = choose|j: int| post.starts_in(j, region, p);
            if j < n && j != i {
                assert(pre.starts_in(j, region, p));
                assert(pre.filed(region, p));
            }
        }
    }
}

/// The place of the plot at `t` once the plot at `gone` has left the store.
pub open spec fn place_after_removal(t: int, gone: int) -> int {
    if t > gone {
        t - 1
    } else {
        t
    }
}

impl Territory {
    /// Why a merge of the plot `plot_b` into the plot `plot_a` is refused,
    /// if it is. The checks come in this order: both plots exist, the
    /// caller owns both, they are adjacent, and together they fill their
    /// bounding box, which they do when its area is the sum of theirs.
    pub open spec fn merge_refusal(self, plot_a: Address, plot_b: Address, caller: Address) -> Option<
        LandError,
    > {
        if !self.knows(plot_a) || !self.knows(plot_b) {
            Some(LandError::InvalidPlot)
        } else {
            let a = self.plots@[self.place_of(plot_a)];
            let b = self.plots@[self.place_of(plot_b)];
            if a.owner != caller || b.owner != caller {
                Some(LandError::NotOwner)
            } else if !a.rect().adjacent(b.rect()) {
                Some(LandError::PlotsNotAdjacent)
            } else if bounding_box(a.rect(), b.rect()).area() != a.rect().area() + b.rect().area() {
                Some(LandError::NonContiguousPlot)
            } else {
                None
            }
        }
    }

    /// `post` is `pre` after the plot `plot_b` was merged into the plot
    /// `plot_a`.
    ///
    /// `plot_b` has left the store, and the plots behind it have moved up
    /// by one place. `plot_a` covers the bounding box of the two, with its
    /// neighbours and its region found anew; nothing else of it differs.
    /// The grid gives the cells of the box to `plot_a` and is otherwise as
    /// before. The region index files `plot_a` under the region of the
    /// box's origin and `plot_b` nowhere.
    pub open spec fn merged_into(pre: Territory, post: Territory, plot_a: Address, plot_b: Address) -> bool {
        let i = pre.place_of(plot_a);
        let j = pre.place_of(plot_b);
        let k = place_after_removal(i, j);
        let whole = bounding_box(pre.plots@[i].rect(), pre.plots@[j].rect());
        &&& post.plots@.len() == pre.plots@.len() - 1
        &&& forall|t: int|
            0 <= t < pre.plots@.len() && t != i && t != j ==> post.plots@[place_after_removal(t, j)]
                == #[trigger] pre.plots@[t]
        &&& post.plots@[k].id == plot_a
        &&& post.plots@[k].owner == pre.plots@[i].owner
        &&& post.plots@[k].is_listed == pre.plots@[i].is_listed
        &&& post.plots@[k].price_per_unit == pre.plots@[i].price_per_unit
        &&& post.plots@[k].timestamp == pre.plots@[i].timestamp
        &&& post.plots@[k].rect() == whole
        &&& post.plots@[k].neighbors@.no_duplicates()
        &&& post.plots@[k].neighbors@.to_set() == neighbor_set(post.grid.cells(), whole)
        &&& post.plots@[k].region_id == region_of(whole.x as int, whole.y as int)
        &&& post.grid.cells() == pre.grid.cells().union_prefer_right(claim_map(whole, plot_a))
        &&& forall|r: u64|
            #![trigger post.grid.filed_under(r)]
            post.grid.filed_under(r) == refiled(
                pre.grid.filed_under(r).remove(plot_b).remove(plot_a),
                r,
                whole,
                plot_a,
            )
        &&& post.country == pre.country
    }

    /// Merges the plot `plot_b` into the plot `plot_a`.
    ///
    /// The caller must own both, and the two must be adjacent and fill
    /// their bounding box. On success `plot_a` covers that box, with its
    /// neighbours and its region found anew, and `plot_b` is gone. On
    /// refusal nothing changes.
    pub fn merge(&mut self, plot_a: Address, plot_b: Address, owner: Address) -> (joined: Result<
        PlotsMerged,
        LandError,
    >)
        requires
            old(self).wf(),
        ensures
            match old(self).merge_refusal(plot_a, plot_b, owner) {
                Some(e) => joined == Err::<PlotsMerged, LandError>(e) && *final(self) == *old(self),
                None => {
                    let whole = bounding_box(
                        old(self).plots@[old(self).place_of(plot_a)].rect(),
                        old(self).plots@[old(self).place_of(plot_b)].rect(),
                    );
                    joined == Ok::<PlotsMerged, LandError>(
                        PlotsMerged {
                            plot_a,
                            plot_b,
                            new_x: whole.x,
                            new_y: whole.y,
                            new_width: whole.width,
                            new_height: whole.height,
                        },
                    ) && final(self).wf() && Territory::merged_into(
                        *old(self),
                        *final(self),
                        plot_a,
                        plot_b,
                    )
                },
            },
    {
        let ghost pre = *self;
        let i = match self.find_plot(plot_a) {
            Some(i) => i,
            None => {
                return Err(LandError::InvalidPlot);
            },
        };
        let j = match self.find_plot(plot_b) {
            Some(j) => j,
            None => {
                return Err(LandError::InvalidPlot);
            },
        };
        proof {
            assert(pre.plot_fits(i as int));
            assert(pre.plot_fits(j as int));
        }
        if self.plots[i].owner != owner || self.plots[j].owner != owner {
            return Err(LandError::NotOwner);
        }
        let a = self.plots[i].rectangle();
        let b = self.plots[j].rectangle();
        if !rectangles_adjacent(&a, &b) {
            return Err(LandError::PlotsNotAdjacent);
        }
        let whole = match merged_bounds(&a, &b) {
            Ok(m) => m,
            Err(e) => {
                assert(false);
                return Err(e);
            },
        };
        proof {
            lemma_bounding_box_is_unique(a, b, whole);
            lemma_area_bounded(a, pre.country.bounds());
            lemma_area_bounded(b, pre.country.bounds());
            lemma_area_bounded(whole, pre.country.bounds());
        }
        let area_a = a.width * a.height;
        let area_b = b.width * b.height;
        let area_whole = whole.width * whole.height;
        if area_whole as u128 != area_a as u128 + area_b as u128 {
            return Err(LandError::NonContiguousPlot);
        }
        proof {
            lemma_plots_never_overlap(pre, i as int, j as int);
            lemma_equal_area_tiles(a, b, whole);
            lemma_plot_holds_its_rectangle(pre, i as int);
            lemma_plot_holds_its_rectangle(pre, j as int);
            lemma_region_fits(
                self.country.width as int,
                self.country.height as int,
                whole.x as int,
                whole.y as int,
            );
        }
        let region = match calculate_region_id(whole.x, whole.y) {
            Ok(r) => r,
            Err(e) => {
                assert(false);
                return Err(e);
            },
        };
        match update_grid_after_merge(
            &mut self.grid,
            plot_a,
            plot_b,
            whole.x,
            whole.y,
            whole.width,
            whole.height,
        ) {
            Ok(()) => {},
            Err(e) => {
                assert(false);
                return Err(e);
            },
        }
        proof {
            assert(self.grid.cells() =~= pre.grid.cells().union_prefer_right(
                claim_map(whole, plot_a),
            ));
        }
        let neighbors = match find_neighboring_plots(
            &self.grid,
            whole.x,
            whole.y,
            whole.width,
            whole.height,
        ) {
            Ok(n) => n,
            Err(e) => {
                assert(false);
                return Err(e);
            },
        };
        self.plots[i].start_x = whole.x;
        self.plots[i].start_y = whole.y;
        self.plots[i].width = whole.width;
        self.plots[i].height = whole.height;
        self.plots[i].neighbors = neighbors;
        self.plots[i].region_id = region;
        self.plots.remove(j);
        proof {
            assert forall|t: int|
                0 <= t < pre.plots@.len() && t != i && t != j implies self.plots@[place_after_removal(
                t,
                j as int,
            )] == #[trigger] pre.plots@[t] by {}
            lemma_merge_keeps_order(pre, *self, plot_a, plot_b, owner);
        }
        Ok(
            PlotsMerged {
                plot_a,
                plot_b,
                new_x: whole.x,
                new_y: whole.y,
                new_width: whole.width,
                new_height: whole.height,
            },
        )
    }
}

/// A merge that is not refused leaves the territory well formed.
pub proof fn lemma_merge_keeps_order(
    pre: Territory,
    post: Territory,
    plot_a: Address,
    plot_b: Address,
    caller: Address,
)
    requires
        pre.wf(),
        pre.merge_refusal(plot_a, plot_b, caller) is None,
        Territory::merged_into(pre, post, plot_a, plot_b),
        post.grid.wf(),
    ensures
        post.wf(),
{
    let i = pre.place_of(plot_a);
    let j = pre.place_of(plot_b);
    let k = place_after_removal(i, j);
    assert(pre.plot_fits(i));
    assert(pre.plot_fits(j));
    let a = pre.plots@[i].rect();
    let b = pre.plots@[j].rect();
    let whole = bounding_box(a, b);
    lemma_bounding_box_is_unique(a, b, whole);
    lemma_plots_never_overlap(pre, i, j);
    lemma_equal_area_tiles(a, b, whole);
    lemma_plot_holds_its_rectangle(pre, i);
    lemma_plot_holds_its_rectangle(pre, j);
    // Every place of `post` but `k` holds a plot of `pre`, unchanged.
    assert forall|u: int| post.has_plot(u) implies #[trigger] post.plot_fits(u) by {
        if u != k {
            let t = if u >= j {
                u + 1
            } else {
                u
            };
            assert(pre.plot_fits(t));
        }
    }
    assert forall|u: int, v: int, id: Address|
        #![trigger post.names(u, id), post.names(v, id)]
        post.names(u, id) && post.names(v, id) implies u == v by {
        let tu = if u == k {
            i
        } else if u >= j {
            u + 1
        } else {
            u
        };
        let tv = if v == k {
            i
        } else if v >= j {
            v + 1
        } else {
            v
        };
        assert(pre.names(tu, id));
        assert(pre.names(tv, id));
    }
    assert forall|cx: int, cy: int| #[trigger] post.claimed(cx, cy) implies exists|u: int|
        post.plot_covers(u, cx, cy) by {
        if whole.covers(cx, cy) {
            assert(post.plot_covers(k, cx, cy));
        } else {
            assert(pre.claimed(cx, cy));
            let t = choose|t: int| pre.plot_covers(t, cx, cy);
            assert(post.plot_covers(place_after_removal(t, j), cx, cy));
        }
    }
    assert forall|u: int, cx: int, cy: int| #[trigger]
        post.plot_covers(u, cx, cy) implies post.claimed(cx, cy) && post.holder(cx, cy)
        == post.plots@[u].id by {
        if u != k {
            let t = if u >= j {
                u + 1
            } else {
                u
            };
            assert(pre.plot_covers(t, cx, cy));
            assert(pre.names(t, pre.plots@[t].id));
        }
    }
    lemma_region_fits(
        pre.country.width as int,
        pre.country.height as int,
        whole.x as int,
        whole.y as int,
    );
    assert forall|region: u64, p: Address| #[trigger]
        post.filed(region, p) <==> exists|u: int| post.starts_in(u, region, p) by {
        if post.filed(region, p) {
            if p == plot_a {
                assert(post.starts_in(k, region, p));
            } else {
                assert(pre.filed(region, p));
                let t = choose|t: int| pre.starts_in(t, region, p);
                assert(post.starts_in(place_after_removal(t, j), region, p));
            }
        }
        if exists|u: int| post.starts_in(u, region, p) {
            let u = choose|u: int| post.starts_in(u, region, p);
            if u != k {
                let t = if u >= j {
                    u + 1
                } else {
                    u
                };
                assert(pre.starts_in(t, region, p));
                assert(pre.filed(region, p));
            }
        }
    }
}

impl Territory {
    /// Why a listing of the plot `plot_id` at `price_per_unit` is refused,
    /// if it is: there is no such plot, the caller does not own it, it is
    /// listed already, or the price is zero.
    pub open spec fn listing_refusal(self, plot_id: Address, caller: Address, price_per_unit: u64) -> Option<
        LandError,
    > {
        if !self.knows(plot_id) {
            Some(LandError::InvalidPlot)
        } else if self.plots@[self.place_of(plot_id)].owner != caller {
            Some(LandError::NotOwner)
        } else if self.plots@[self.place_of(plot_id)].is_listed {
            Some(LandError::AlreadyListed)
        } else if price_per_unit == 0 {
            Some(LandError::InvalidPrice)
        } else {
            None
        }
    }

    /// Why the withdrawal of the listing of the plot `plot_id` is refused,
    /// if it is: there is no such plot, the caller does not own it, or it
    /// is not listed.
    pub open spec fn unlisting_refusal(self, plot_id: Address, caller: Address) -> Option<LandError> {
        if !self.knows(plot_id) {
            Some(LandError::InvalidPlot)
        } else if self.plots@[self.place_of(plot_id)].owner != caller {
            Some(LandError::NotOwner)
        } else if !self.plots@[self.place_of(plot_id)].is_listed {
            Some(LandError::NotListed)
        } else {
            None
        }
    }

    /// `post` is `pre` but for the listing of the plot `plot_id`, which is
    /// now `is_listed` at `price_per_unit`.
    pub open spec fn relisted(
        pre: Territory,
        post: Territory,
        plot_id: Address,
        is_listed: bool,
        price_per_unit: u64,
    ) -> bool {
        let i = pre.place_of(plot_id);
        &&& post.plots@.len() == pre.plots@.len()
        &&& forall|j: int|
            0 <= j < pre.plots@.len() && j != i ==> #[trigger] post.plots@[j] == pre.plots@[j]
        &&& post.plots@[i].id == plot_id
        &&& post.plots@[i].owner == pre.plots@[i].owner
        &&& post.plots@[i].rect() == pre.plots@[i].rect()
        &&& post.plots@[i].timestamp == pre.plots@[i].timestamp
        &&& post.plots@[i].neighbors == pre.plots@[i].neighbors
        &&& post.plots@[i].region_id == pre.plots@[i].region_id
        &&& post.plots@[i].is_listed == is_listed
        &&& post.plots@[i].price_per_unit == price_per_unit
        &&& post.grid == pre.grid
        &&& post.country == pre.country
    }

    /// Lists the plot `plot_id` at `price_per_unit`. Neither the grid nor
    /// any rectangle is touched. On refusal nothing changes.
    pub fn list_plot(&mut self, plot_id: Address, owner: Address, price_per_unit: u64) -> (done: Result<
        (),
        LandError,
    >)
        requires
            old(self).wf(),
        ensures
            match old(self).listing_refusal(plot_id, owner, price_per_unit) {
                Some(e) => done == Err::<(), LandError>(e) && *final(self) == *old(self),
                None => done is Ok && final(self).wf() && Territory::relisted(
                    *old(self),
                    *final(self),
                    plot_id,
                    true,
                    price_per_unit,
                ),
            },
    {
        let ghost pre = *self;
        let i = match self.find_plot(plot_id) {
            Some(i) => i,
            None => {
                return Err(LandError::InvalidPlot);
            },
        };
        if self.plots[i].owner != owner {
            return Err(LandError::NotOwner);
        }
        if self.plots[i].is_listed {
            return Err(LandError::AlreadyListed);
        }
        if price_per_unit == 0 {
            return Err(LandError::InvalidPrice);
        }
        self.plots[i].is_listed = true;
        self.plots[i].price_per_unit = price_per_unit;
        proof {
            lemma_listing_keeps_order(pre, *self, plot_id, true, price_per_unit);
        }
        Ok(())
    }

    /// Withdraws the listing of the plot `plot_id`. Neither the grid nor
    /// any rectangle is touched. On refusal nothing changes.
    pub fn unlist_plot(&mut self, plot_id: Address, owner: Address) -> (done: Result<(), LandError>)
        requires
            old(self).wf(),
        ensures
            match old(self).unlisting_refusal(plot_id, owner) {
                Some(e) => done == Err::<(), LandError>(e) && *final(self) == *old(self),
                None => done is Ok && final(self).wf() && Territory::relisted(
                    *old(self),
                    *final(self),
                    plot_id,
                    false,
                    0,
                ),
            },
    {
        let ghost pre = *self;
        let i = match self.find_plot(plot_id) {
            Some(i) => i,
            None => {
                return Err(LandError::InvalidPlot);
            },
        };
        if self.plots[i].owner != owner {
            return Err(LandError::NotOwner);
        }
        if !self.plots[i].is_listed {
            return Err(LandError::NotListed);
        }
        self.plots[i].is_listed = false;
        self.plots[i].price_per_unit = 0;
        proof {
            lemma_listing_keeps_order(pre, *self, plot_id, false, 0);
        }
        Ok(())
    }
}

/// A change of a listing leaves the territory well formed.
pub proof fn lemma_listing_keeps_order(
    pre: Territory,
    post: Territory,
    plot_id: Address,
    is_listed: bool,
    price_per_unit: u64,
)
    requires
        pre.wf(),
        pre.knows(plot_id),
        Territory::relisted(pre, post, plot_id, is_listed, price_per_unit),
    ensures
        post.wf(),
{
    assert forall|j: int| post.has_plot(j) implies #[trigger] post.plot_fits(j) by {
        assert(pre.plot_fits(j));
    }
    assert forall|a: int, b: int, id: Address|
        #![trigger post.names(a, id), post.names(b, id)]
        post.names(a, id) && post.names(b, id) implies a == b by {
        assert(pre.names(a, id) && pre.names(b, id));
    }
    assert forall|cx: int, cy: int| #[trigger] post.claimed(cx, cy) implies exists|j: int|
        post.plot_covers(j, cx, cy) by {
        assert(pre.claimed(cx, cy));
        let j = choose|j: int| pre.plot_covers(j, cx, cy);
        assert(post.plot_covers(j, cx, cy));
    }
    assert forall|j: int, cx: int, cy: int| #[trigger]
        post.plot_covers(j, cx, cy) implies post.claimed(cx, cy) && post.holder(cx, cy)
        == post.plots@[j].id by {
        assert(pre.plot_covers(j, cx, cy));
    }
    assert forall|region: u64, p: Address| #[trigger]
        post.filed(region, p) <==> exists|j: int| post.starts_in(j, region, p) by {
        if post.filed(region, p) {
            assert(pre.filed(region, p));
            let j = choose|j: int| pre.starts_in(j, region, p);
            assert(post.starts_in(j, region, p));
        }
        if exists|j: int| post.starts_in(j, region, p) {
            let j = choose|j: int| post.starts_in(j, region, p);
            assert(pre.starts_in(j, region, p));
            assert(pre.filed(region, p));
        }
    }
}

/// A split followed at once by the merge of the new plot back into the old
/// one undoes itself.
///
/// The merge is not refused. After it the store, the grid, the region
/// index and the country are as before the split, but for the neighbours
/// of the plot: these are found anew, and are the plots around the plot's
/// old rectangle in the old grid. Where the plot's record of its neighbours
/// was up to date before the split, it is the same set after the merge.
pub proof fn lemma_split_then_merge_restores(
    before: Territory,
    between: Territory,
    after: Territory,
    plot_id: Address,
    new_plot_id: Address,
    caller: Address,
    part: Rectangle,
    now: i64,
)
    requires
        before.wf(),
        before.split_refusal(plot_id, new_plot_id, caller, part) is None,
        Territory::split_off(before, between, plot_id, new_plot_id, caller, part, now),
        between.wf(),
        Territory::merged_into(between, after, plot_id, new_plot_id),
    ensures
        between.merge_refusal(plot_id, new_plot_id, caller) is None,
        after.plots@.len() == before.plots@.len(),
        forall|j: int|
            0 <= j < before.plots@.len() && j != before.place_of(plot_id) ==> #[trigger] after.plots@[j]
                == before.plots@[j],
        ({
            let i = before.place_of(plot_id);
            let old_plot = before.plots@[i];
            let new_plot = after.plots@[i];
            &&& new_plot.id == plot_id
            &&& new_plot.owner == old_plot.owner
            &&& new_plot.rect() == old_plot.rect()
            &&& new_plot.is_listed == old_plot.is_listed
            &&& new_plot.price_per_unit == old_plot.price_per_unit
            &&& new_plot.timestamp == old_plot.timestamp
            &&& new_plot.region_id == old_plot.region_id
            &&& new_plot.neighbors@.to_set() == neighbor_set(before.grid.cells(), old_plot.rect())
            &&& old_plot.neighbors@.to_set() == neighbor_set(before.grid.cells(), old_plot.rect())
                ==> new_plot.neighbors@.to_set() == old_plot.neighbors@.to_set()
        }),
        after.grid.cells() == before.grid.cells(),
        forall|r: u64| #[trigger] after.grid.filed_under(r) == before.grid.filed_under(r),
        after.country == before.country,
{
    let n = before.plots@.len() as int;
    let i = before.place_of(plot_id);
    assert(before.plot_fits(i));
    let whole = before.plots@[i].rect();
    let rest = remainder_after(whole, part);
    lemma_cut_tiles(whole, part);
    lemma_plot_holds_its_rectangle(before, i);
    // Where the two plots stand between the split and the merge.
    assert(between.names(i, plot_id));
    assert(between.names(n, new_plot_id));
    lemma_bounding_box_is_unique(rest, part, whole);
    assert(whole.area() == rest.area() + part.area()) by (nonlinear_arith)
        requires
            whole.width == rest.width + part.width && whole.height == rest.height
                && whole.height == part.height || whole.height == rest.height + part.height
                && whole.width == rest.width && whole.width == part.width,
    ;
    assert(after.grid.cells() =~= before.grid.cells());
    assert forall|r: u64| #[trigger] after.grid.filed_under(r) == before.grid.filed_under(r) by {
        let home = region_of(whole.x as int, whole.y as int);
        lemma_region_fits(
            before.country.width as int,
            before.country.height as int,
            whole.x as int,
            whole.y as int,
        );
        assert(!before.filed(r, new_plot_id)) by {}
        if r == home {
            assert(before.starts_in(i, r, plot_id));
            assert(before.filed(r, plot_id));
        } else {
            assert(!before.filed(r, plot_id)) by {}
        }
    }
    assert forall|j: int| 0 <= j < n && j != i implies #[trigger] after.plots@[j]
        == before.plots@[j] by {
        assert(between.plots@[j] == before.plots@[j]);
    }
}

/// No operation lowers the count of units sold: an allocation adds the
/// area of the new plot, and a split, a merge or a change of a listing
/// leaves the count as it is.
pub proof fn lemma_units_sold_never_fall(
    pre: Territory,
    post: Territory,
    plot: Address,
    other: Address,
    caller: Address,
    rect: Rectangle,
    now: i64,
    is_listed: bool,
    price_per_unit: u64,
)
    requires
        Territory::allocated(pre, post, plot, caller, rect, now) || Territory::split_off(
            pre,
            post,
            plot,
            other,
            caller,
            rect,
            now,
        ) || Territory::merged_into(pre, post, plot, other) || Territory::relisted(
            pre,
            post,
            plot,
            is_listed,
            price_per_unit,
        ),
    ensures
        post.country.units_sold >= pre.country.units_sold,
{
    if Territory::allocated(pre, post, plot, caller, rect, now) {
        assert(rect.area() >= 0) by (nonlinear_arith)
            requires
                rect.area() == rect.width * rect.height,
                rect.width >= 0,
                rect.height >= 0,
        ;
    }
}

} // verus!
