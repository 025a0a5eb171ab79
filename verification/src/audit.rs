//! Looking a territory over: whether it is well formed.
//!
//! A territory that comes from storage is looked over once; the operations
//! keep it well formed from then on.

use crate::address::Address;
use crate::geometry::{rectangle_within, Rectangle};
use crate::grid::{entry_at, files_at, lemma_entry_holds};
use crate::region::calculate_region_id;
use crate::state::CountryState;
use crate::territory::Territory;
use vstd::prelude::*;

verus! {

impl CountryState {
    /// Whether the country is well formed: it has area, its unit count is
    /// the product of its sides, and no more is sold than there is.
    pub fn is_well_formed(&self) -> (ok: bool)
        ensures
            ok == self.wf(),
    {
        assert(self.width * self.height <= u128::MAX) by (nonlinear_arith)
            requires
                self.width <= u64::MAX,
                self.height <= u64::MAX,
        ;
        self.width > 0 && self.height > 0 && self.total_units as u128 == self.width as u128
            * self.height as u128 && self.units_sold <= self.total_units
    }
}

impl Territory {
    /// Some plot covers the cell of the grid's entry `e`.
    pub open spec fn covers_entry(self, e: int) -> bool {
        exists|i: int|
            self.plot_covers(
                i,
                self.grid.occupied_coordinates@[e].x as int,
                self.grid.occupied_coordinates@[e].y as int,
            )
    }

    /// Some plot has the name `p` and its origin in `region`.
    pub open spec fn is_home_of(self, region: u64, p: Address) -> bool {
        exists|i: int| self.starts_in(i, region, p)
    }

    /// Whether every plot has area, lies inside the country, and remembers
    /// the region of its origin.
    fn every_plot_fits(&self) -> (ok: bool)
        ensures
            ok == self.plots_fit(),
    {
        let bounds = Rectangle { x: 0, y: 0, width: self.country.width, height: self.country.height };
        let mut i: usize = 0;
        while i < self.plots.len()
            invariant
                i <= self.plots.len(),
                bounds == self.country.bounds(),
                forall|j: int| 0 <= j < i ==> #[trigger] self.plot_fits(j),
            decreases self.plots.len() - i,
        {
            let p = &self.plots[i];
            let fits = p.width > 0 && p.height > 0 && rectangle_within(
                &bounds,
                p.start_x,
                p.start_y,
                p.width,
                p.height,
            ) && match calculate_region_id(p.start_x, p.start_y) {
                Ok(r) => r == p.region_id,
                Err(_) => false,
            };
            if !fits {
                assert(!self.plot_fits(i as int));
                return false;
            }
            i += 1;
        }
        true
    }

    /// Whether no two plots have one name.
    fn every_name_is_unique(&self) -> (ok: bool)
        ensures
            ok == self.names_are_unique(),
    {
        let n = self.plots.len();
        let mut i: usize = 0;
        while i < n
            invariant
                i <= n,
                n == self.plots@.len(),
                forall|a: int, b: int| 0 <= a < i && a < b < n ==> self.plots@[a].id != self.plots@[b].id,
            decreases n - i,
        {
            let mut j: usize = i + 1;
            while j < n
                invariant
                    i < j <= n,
                    n == self.plots@.len(),
                    forall|a: int, b: int|
                        0 <= a < i && a < b < n ==> self.plots@[a].id != self.plots@[b].id,
                    forall|b: int| i < b < j ==> self.plots@[i as int].id != self.plots@[b].id,
                decreases n - j,
            {
                if self.plots[i].id == self.plots[j].id {
                    assert(self.names(i as int, self.plots@[i as int].id));
                    assert(self.names(j as int, self.plots@[i as int].id));
                    return false;
                }
                j += 1;
            }
            i += 1;
        }
        true
    }

    /// Whether every claimed cell lies in the plot for which it is claimed.
    fn every_claim_is_covered(&self) -> (ok: bool)
        requires
            self.grid.wf(),
            self.names_are_unique(),
        ensures
            ok ==> self.claims_are_covered(),
            !ok ==> !self.plots_are_claimed() || !self.claims_are_covered(),
    {
        let ghost cells = self.grid.occupied_coordinates@;
        let mut k: usize = 0;
        while k < self.grid.occupied_coordinates.len()
            invariant
                k <= cells.len(),
                cells == self.grid.occupied_coordinates@,
                self.grid.wf(),
                self.names_are_unique(),
                forall|e: int| 0 <= e < k ==> #[trigger] self.covers_entry(e),
            decreases cells.len() - k,
        {
            let entry = self.grid.occupied_coordinates[k];
            let ghost cx = entry.x as int;
            let ghost cy = entry.y as int;
            let place = self.find_plot(entry.plot);
            let covered = match place {
                Some(i) => {
                    let p = &self.plots[i];
                    p.start_x <= entry.x && (entry.x as u128) < p.start_x as u128 + p.width as u128
                        && p.start_y <= entry.y && (entry.y as u128) < p.start_y as u128
                        + p.height as u128
                },
                None => false,
            };
            proof {
                lemma_entry_holds(cells, k as int, cx, cy);
                assert(self.claimed(cx, cy));
                if covered {
                    assert(self.plot_covers(place.unwrap() as int, cx, cy));
                } else if self.plots_are_claimed() && self.claims_are_covered() {
                    let j = choose|j: int| self.plot_covers(j, cx, cy);
                    assert(self.names(j, entry.plot));
                    assert(false);
                }
            }
            if !covered {
                return false;
            }
            k += 1;
        }
        proof {
            assert forall|cx: int, cy: int| #[trigger] self.claimed(cx, cy) implies exists|i: int|
                self.plot_covers(i, cx, cy) by {
                let e = choose|e: int| entry_at(cells, e, cx, cy);
                assert(self.covers_entry(e));
            }
        }
        true
    }

    /// Whether every cell of every plot is claimed for that plot.
    fn every_plot_is_claimed(&self) -> (ok: bool)
        requires
            self.plots_fit(),
        ensures
            ok == self.plots_are_claimed(),
    {
        let mut i: usize = 0;
        while i < self.plots.len()
            invariant
                i <= self.plots.len(),
                self.plots_fit(),
                forall|j: int, cx: int, cy: int|
                    0 <= j < i && #[trigger] self.plot_covers(j, cx, cy) ==> self.claimed(cx, cy)
                        && self.holder(cx, cy) == self.plots@[j].id,
            decreases self.plots.len() - i,
        {
            let p = &self.plots[i];
            assert(self.plot_fits(i as int));
            let end_x = p.start_x + p.width;
            let end_y = p.start_y + p.height;
            let mut x: u64 = p.start_x;
            while x < end_x
                invariant
                    i < self.plots.len(),
                    *p == self.plots@[i as int],
                    end_x == p.start_x + p.width,
                    end_y == p.start_y + p.height,
                    p.start_x <= x <= end_x,
                    forall|cx: int, cy: int|
                        #[trigger] self.plot_covers(i as int, cx, cy) && cx < x ==> self.claimed(
                            cx,
                            cy,
                        ) && self.holder(cx, cy) == p.id,
                decreases end_x - x,
            {
                let mut y: u64 = p.start_y;
                while y < end_y
                    invariant
                        i < self.plots.len(),
                        *p == self.plots@[i as int],
                        end_x == p.start_x + p.width,
                        end_y == p.start_y + p.height,
                        p.start_x <= x < end_x,
                        p.start_y <= y <= end_y,
                        forall|cx: int, cy: int|
                            #[trigger] self.plot_covers(i as int, cx, cy) && (cx < x || (cx == x
                                && cy < y)) ==> self.claimed(cx, cy) && self.holder(cx, cy) == p.id,
                    decreases end_y - y,
                {
                    if self.grid.owner_of(x, y) != Some(p.id) {
                        assert(self.plot_covers(i as int, x as int, y as int));
                        return false;
                    }
                    y += 1;
                }
                x += 1;
            }
            i += 1;
        }
        true
    }

    /// Whether the region index files every plot under the region of its
    /// origin, and nothing else.
    fn every_filing_is_exact(&self) -> (ok: bool)
        requires
            self.plots_fit(),
            self.names_are_unique(),
        ensures
            ok == self.filing_is_exact(),
    {
        let ghost regions = self.grid.region_plots@;
        let mut k: usize = 0;
        while k < self.grid.region_plots.len()
            invariant
                k <= regions.len(),
                regions == self.grid.region_plots@,
                self.plots_fit(),
                self.names_are_unique(),
                forall|e: int, region: u64, p: Address|
                    0 <= e < k && #[trigger] files_at(regions, e, region, p) ==> exists|i: int|
                        self.starts_in(i, region, p),
            decreases regions.len() - k,
        {
            let region = self.grid.region_plots[k].region_id;
            let ghost list = regions[k as int].plots@;
            let mut w: usize = 0;
            while w < self.grid.region_plots[k].plots.len()
                invariant
                    k < regions.len(),
                    regions == self.grid.region_plots@,
                    region == regions[k as int].region_id,
                    list == regions[k as int].plots@,
                    w <= list.len(),
                    self.plots_fit(),
                    self.names_are_unique(),
                    forall|v: int| 0 <= v < w ==> #[trigger] self.is_home_of(region, list[v]),
                decreases list.len() - w,
            {
                let p = self.grid.region_plots[k].plots[w];
                let place = self.find_plot(p);
                let at_home = match place {
                    Some(i) => self.plots[i].region_id == region,
                    None => false,
                };
                proof {
                    assert(files_at(regions, k as int, region, p));
                    assert(self.filed(region, p));
                    if at_home {
                        let i = place.unwrap() as int;
                        assert(self.plot_fits(i));
                        assert(self.starts_in(i, region, p));
                    } else if self.filing_is_exact() {
                        let j = choose|j: int| self.starts_in(j, region, p);
                        assert(self.plot_fits(j));
                        assert(false);
                    }
                }
                if !at_home {
                    return false;
                }
                w += 1;
            }
            proof {
                assert forall|e: int, r: u64, p: Address|
                    0 <= e < k + 1 && #[trigger] files_at(regions, e, r, p) implies exists|i: int|
                        self.starts_in(i, r, p) by {
                    if e == k {
                        let v = choose|v: int| 0 <= v < list.len() && list[v] == p;
                        assert(self.is_home_of(r, list[v]));
                    }
                }
            }
            k += 1;
        }
        let mut i: usize = 0;
        while i < self.plots.len()
            invariant
                i <= self.plots.len(),
                self.plots_fit(),
                forall|j: int|
                    0 <= j < i ==> self.filed(
                        (#[trigger] self.plots@[j]).region_id,
                        self.plots@[j].id,
                    ),
            decreases self.plots.len() - i,
        {
            if !self.grid.files(self.plots[i].region_id, self.plots[i].id) {
                proof {
                    let r = self.plots@[i as int].region_id;
                    let p = self.plots@[i as int].id;
                    assert(self.plot_fits(i as int));
                    assert(self.starts_in(i as int, r, p));
                    assert(!self.filed(r, p));
                }
                return false;
            }
            i += 1;
        }
        true
    }

    /// Whether the territory is well formed.
    ///
    /// Every cell of every plot is looked up, so the cost grows with the
    /// area that is sold.
    pub fn is_well_formed(&self) -> (ok: bool)
        ensures
            ok == self.wf(),
    {
        if !self.country.is_well_formed() {
            return false;
        }
        if !self.grid.is_well_formed() {
            return false;
        }
        if !self.every_plot_fits() {
            return false;
        }
        if !self.every_name_is_unique() {
            return false;
        }
        if !self.every_plot_is_claimed() {
            return false;
        }
        if !self.every_claim_is_covered() {
            return false;
        }
        self.every_filing_is_exact()
    }
}

} // verus!
