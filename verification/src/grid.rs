//! The occupancy grid: which cell belongs to which plot.
//!
//! The grid is kept as a list of claimed cells. Its meaning is a map from
//! cells to plots, [`cell_map`], and for each region the set of plots filed
//! under it, [`plots_in_region`]. The contracts speak of these two.

use crate::address::Address;
use crate::error::LandError;
use crate::geometry::Rectangle;
use crate::region::{calculate_region_id, region_of};
use crate::state::{CoordinateMapping, GridState, RegionMapping};
use vstd::prelude::*;

verus! {

/// Entry `i` of the list claims the cell `(x, y)`.
pub open spec fn entry_at(s: Seq<CoordinateMapping>, i: int, x: int, y: int) -> bool {
    0 <= i < s.len() && s[i].x == x && s[i].y == y
}

/// Entry `i` is the first one that claims the cell `(x, y)`.
pub open spec fn first_entry_at(s: Seq<CoordinateMapping>, i: int, x: int, y: int) -> bool {
    entry_at(s, i, x, y) && forall|j: int| 0 <= j < i ==> !entry_at(s, j, x, y)
}

/// Some entry claims the cell `(x, y)`.
pub open spec fn occupied_in(s: Seq<CoordinateMapping>, x: int, y: int) -> bool {
    exists|i: int| entry_at(s, i, x, y)
}

/// The plot that holds the cell `(x, y)`: that of the first entry for it.
pub open spec fn holder_in(s: Seq<CoordinateMapping>, x: int, y: int) -> Address {
    s[choose|i: int| first_entry_at(s, i, x, y)].plot
}

/// What a list of claimed cells means: the map from each claimed cell to
/// the plot that holds it.
pub open spec fn cell_map(s: Seq<CoordinateMapping>) -> Map<(int, int), Address> {
    Map::new(|c: (int, int)| occupied_in(s, c.0, c.1), |c: (int, int)| holder_in(s, c.0, c.1))
}

/// No cell is claimed twice.
pub open spec fn distinct_cells(s: Seq<CoordinateMapping>) -> bool {
    forall|i: int, j: int| 0 <= i < j < s.len() ==> !(s[i].x == s[j].x && s[i].y == s[j].y)
}

/// Entry `k` of the region index files `plot` under `region`.
pub open spec fn files_at(s: Seq<RegionMapping>, k: int, region: u64, plot: Address) -> bool {
    0 <= k < s.len() && s[k].region_id == region && s[k].plots@.contains(plot)
}

/// What the region index means: the set of plots filed under `region`.
pub open spec fn plots_in_region(s: Seq<RegionMapping>, region: u64) -> Set<Address> {
    Set::new(|p: Address| exists|k: int| files_at(s, k, region, p))
}

/// Every region has one entry at most, and no entry names a plot twice.
pub open spec fn distinct_regions(s: Seq<RegionMapping>) -> bool {
    &&& forall|i: int, j: int| 0 <= i < j < s.len() ==> s[i].region_id != s[j].region_id
    &&& forall|k: int| 0 <= k < s.len() ==> #[trigger] s[k].plots@.no_duplicates()
}

/// The map that gives every cell of `rect` to `plot`.
pub open spec fn claim_map(rect: Rectangle, plot: Address) -> Map<(int, int), Address> {
    Map::new(|c: (int, int)| rect.covers(c.0, c.1), |c: (int, int)| plot)
}

/// The map `m` without the cells that `plot` holds.
pub open spec fn without_plot(m: Map<(int, int), Address>, plot: Address) -> Map<(int, int), Address> {
    Map::new(|c: (int, int)| m.contains_key(c) && m[c] != plot, |c: (int, int)| m[c])
}

impl GridState {
    /// The map from each claimed cell to the plot that holds it.
    pub open spec fn cells(self) -> Map<(int, int), Address> {
        cell_map(self.occupied_coordinates@)
    }

    /// The plots that are filed under `region`.
    pub open spec fn filed_under(self, region: u64) -> Set<Address> {
        plots_in_region(self.region_plots@, region)
    }

    /// No cell is claimed twice, no region has two entries, and no entry
    /// names a plot twice.
    pub open spec fn wf(self) -> bool {
        distinct_cells(self.occupied_coordinates@) && distinct_regions(self.region_plots@)
    }

    /// No cell of `rect` is claimed.
    pub open spec fn is_free(self, rect: Rectangle) -> bool {
        forall|cx: int, cy: int| rect.covers(cx, cy) ==> !self.cells().contains_key((cx, cy))
    }

    /// Every claimed cell of `rect` is held by `plot_a` or by `plot_b`.
    pub open spec fn is_free_apart_from(self, rect: Rectangle, plot_a: Address, plot_b: Address) -> bool {
        forall|cx: int, cy: int|
            rect.covers(cx, cy) && self.cells().contains_key((cx, cy)) ==> self.cells()[(cx, cy)]
                == plot_a || self.cells()[(cx, cy)] == plot_b
    }

    /// This grid is `before` with `rect` claimed for `plot`: the cells of
    /// the rectangle belong to the plot, the plot is filed under the region
    /// of the rectangle's origin, and nothing else differs.
    pub open spec fn is_claim_on(self, before: GridState, rect: Rectangle, plot: Address) -> bool {
        &&& self.cells() == before.cells().union_prefer_right(claim_map(rect, plot))
        &&& forall|r: u64|
            #![trigger self.filed_under(r)]
            self.filed_under(r) == (if r == region_of(rect.x as int, rect.y as int) {
                before.filed_under(r).insert(plot)
            } else {
                before.filed_under(r)
            })
    }

    /// This grid is `before` without the plot `plot`: its cells are free,
    /// it is filed nowhere, and nothing else differs.
    pub open spec fn is_release_of(self, before: GridState, plot: Address) -> bool {
        &&& self.cells() == without_plot(before.cells(), plot)
        &&& forall|r: u64|
            #![trigger self.filed_under(r)]
            self.filed_under(r) == before.filed_under(r).remove(plot)
    }
}

/// The first entry for a cell decides who holds it.
pub proof fn lemma_first_entry_holds(s: Seq<CoordinateMapping>, i: int, x: int, y: int)
    requires
        first_entry_at(s, i, x, y),
    ensures
        cell_map(s).contains_key((x, y)),
        cell_map(s)[(x, y)] == s[i].plot,
{
}

/// Where no cell is claimed twice, any entry for a cell is the first.
pub proof fn lemma_entry_holds(s: Seq<CoordinateMapping>, i: int, x: int, y: int)
    requires
        distinct_cells(s),
        entry_at(s, i, x, y),
    ensures
        first_entry_at(s, i, x, y),
        cell_map(s).contains_key((x, y)),
        cell_map(s)[(x, y)] == s[i].plot,
{
    assert forall|j: int| 0 <= j < i implies !entry_at(s, j, x, y) by {}
    lemma_first_entry_holds(s, i, x, y);
}

/// A new entry for a free cell adds that cell to the map and changes
/// nothing else.
pub proof fn lemma_push_cell(s: Seq<CoordinateMapping>, c: CoordinateMapping)
    requires
        distinct_cells(s),
        !cell_map(s).contains_key((c.x as int, c.y as int)),
    ensures
        distinct_cells(s.push(c)),
        cell_map(s.push(c)) == cell_map(s).insert((c.x as int, c.y as int), c.plot),
{
    let t = s.push(c);
    let n = s.len() as int;
    assert forall|i: int, j: int| 0 <= i < j < t.len() implies !(t[i].x == t[j].x && t[i].y
        == t[j].y) by {
        if j == n && t[i].x == t[j].x && t[i].y == t[j].y {
            assert(entry_at(s, i, c.x as int, c.y as int));
        }
    }
    let target = cell_map(s).insert((c.x as int, c.y as int), c.plot);
    assert forall|k: (int, int)| cell_map(t).contains_key(k) <==> target.contains_key(k) by {
        if cell_map(t).contains_key(k) {
            let i = choose|i: int| entry_at(t, i, k.0, k.1);
            if i < n {
                assert(entry_at(s, i, k.0, k.1));
            }
        }
        if target.contains_key(k) {
            if k == (c.x as int, c.y as int) {
                assert(entry_at(t, n, k.0, k.1));
            } else {
                let i = choose|i: int| entry_at(s, i, k.0, k.1);
                assert(entry_at(t, i, k.0, k.1));
            }
        }
    }
    assert forall|k: (int, int)| #[trigger] cell_map(t).contains_key(k) implies cell_map(t)[k]
        == target[k] by {
        let i = choose|i: int| entry_at(t, i, k.0, k.1);
        lemma_entry_holds(t, i, k.0, k.1);
        if i < n {
            lemma_entry_holds(s, i, k.0, k.1);
        }
    }
}

impl GridState {
    /// The plot that holds the cell `(x, y)`, if the cell is claimed.
    pub fn owner_of(&self, x: u64, y: u64) -> (owner: Option<Address>)
        ensures
            owner == self.cells().get((x as int, y as int)),
    {
        let mut i: usize = 0;
        while i < self.occupied_coordinates.len()
            invariant
                i <= self.occupied_coordinates.len(),
                forall|j: int| 0 <= j < i ==> !entry_at(self.occupied_coordinates@, j, x as int, y as int),
            decreases self.occupied_coordinates.len() - i,
        {
            let entry = self.occupied_coordinates[i];
            if entry.x == x && entry.y == y {
                proof {
                    lemma_first_entry_holds(self.occupied_coordinates@, i as int, x as int, y as int);
                }
                return Some(entry.plot);
            }
            i += 1;
        }
        None
    }
}

/// Whether any cell of the rectangle `(start_x, start_y, width, height)` is
/// claimed.
///
/// Every cell of the rectangle is looked up, so the cost grows with the
/// rectangle's area. Fails where a far edge of the rectangle is no
/// coordinate of the grid.
pub fn is_land_occupied(grid: &GridState, start_x: u64, start_y: u64, width: u64, height: u64) -> (occupied:
    Result<bool, LandError>)
    ensures
        ({
            let rect = Rectangle { x: start_x, y: start_y, width, height };
            &&& !rect.in_range() ==> occupied == Err::<bool, LandError>(LandError::CalculationError)
            &&& rect.in_range() ==> occupied == Ok::<bool, LandError>(!grid.is_free(rect))
        }),
{
    let ghost rect = Rectangle { x: start_x, y: start_y, width, height };
    let end_x = match start_x.checked_add(width) {
        Some(e) => e,
        None => {
            return Err(LandError::CalculationError);
        },
    };
    let end_y = match start_y.checked_add(height) {
        Some(e) => e,
        None => {
            return Err(LandError::CalculationError);
        },
    };
    let mut x: u64 = start_x;
    while x < end_x
        invariant
            start_x <= x <= end_x,
            end_x == start_x + width,
            end_y == start_y + height,
            rect == (Rectangle { x: start_x, y: start_y, width, height }),
            forall|cx: int, cy: int|
                rect.covers(cx, cy) && cx < x ==> !grid.cells().contains_key((cx, cy)),
        decreases end_x - x,
    {
        let mut y: u64 = start_y;
        while y < end_y
            invariant
                start_x <= x < end_x,
                start_y <= y <= end_y,
                end_x == start_x + width,
                end_y == start_y + height,
                rect == (Rectangle { x: start_x, y: start_y, width, height }),
                forall|cx: int, cy: int|
                    rect.covers(cx, cy) && (cx < x || (cx == x && cy < y))
                        ==> !grid.cells().contains_key((cx, cy)),
            decreases end_y - y,
        {
            if grid.owner_of(x, y).is_some() {
                assert(rect.covers(x as int, y as int));
                return Ok(true);
            }
            y += 1;
        }
        x += 1;
    }
    Ok(false)
}

/// The cells of `rect` that come before `(x, y)` when the rectangle is
/// walked column by column, each given to `plot`.
pub open spec fn claimed_before(rect: Rectangle, x: int, y: int, plot: Address) -> Map<
    (int, int),
    Address,
> {
    Map::new(
        |c: (int, int)| rect.covers(c.0, c.1) && (c.0 < x || (c.0 == x && c.1 < y)),
        |c: (int, int)| plot,
    )
}

/// Whether the list names the plot.
fn names_plot(plots: &Vec<Address>, plot: Address) -> (found: bool)
    ensures
        found == plots@.contains(plot),
{
    let mut i: usize = 0;
    while i < plots.len()
        invariant
            i <= plots.len(),
            forall|j: int| 0 <= j < i ==> plots@[j] != plot,
        decreases plots.len() - i,
    {
        if plots[i] == plot {
            return true;
        }
        i += 1;
    }
    false
}

/// Files `plot` under `region`, unless it is filed there already.
fn file_plot(regions: &mut Vec<RegionMapping>, region: u64, plot: Address)
    requires
        distinct_regions(old(regions)@),
    ensures
        distinct_regions(final(regions)@),
        forall|r: u64|
            #![trigger plots_in_region(final(regions)@, r)]
            plots_in_region(final(regions)@, r) == (if r == region {
                plots_in_region(old(regions)@, r).insert(plot)
            } else {
                plots_in_region(old(regions)@, r)
            }),
{
    let ghost before = regions@;
    let mut k: usize = 0;
    let mut found = false;
    while k < regions.len()
        invariant_except_break
            !found,
            forall|j: int| 0 <= j < k ==> before[j].region_id != region,
        invariant
            k <= regions.len(),
            regions@ == before,
        ensures
            regions@ == before,
            k <= regions.len(),
            found ==> k < regions.len() && before[k as int].region_id == region,
            !found ==> forall|j: int| 0 <= j < before.len() ==> before[j].region_id != region,
        decreases regions.len() - k,
    {
        if regions[k].region_id == region {
            found = true;
            break ;
        }
        k += 1;
    }
    if found {
        if !names_plot(&regions[k].plots, plot) {
            regions[k].plots.push(plot);
            let ghost after = regions@;
            proof {
                let prior = before[k as int].plots@;
                assert(prior.no_duplicates());
                assert forall|r: u64|
                    #![trigger plots_in_region(after, r)]
                    plots_in_region(after, r) =~= (if r == region {
                        plots_in_region(before, r).insert(plot)
                    } else {
                        plots_in_region(before, r)
                    }) by {
                    assert forall|p: Address| plots_in_region(after, r).contains(p) implies (if r
                        == region {
                        plots_in_region(before, r).insert(plot)
                    } else {
                        plots_in_region(before, r)
                    }).contains(p) by {
                        let j = choose|j: int| files_at(after, j, r, p);
                        if j == k {
                            let w = choose|w: int|
                                0 <= w < after[j].plots@.len() && after[j].plots@[w] == p;
                            if w < before[j].plots@.len() {
                                assert(files_at(before, j, r, p));
                            }
                        } else {
                            assert(files_at(before, j, r, p));
                        }
                    }
                    assert forall|p: Address|
                        (if r == region {
                            plots_in_region(before, r).insert(plot)
                        } else {
                            plots_in_region(before, r)
                        }).contains(p) implies plots_in_region(after, r).contains(p) by {
                        if r == region && p == plot {
                            assert(after[k as int].plots@[before[k as int].plots@.len() as int]
                                == plot);
                            assert(files_at(after, k as int, r, p));
                        } else {
                            let j = choose|j: int| files_at(before, j, r, p);
                            if j == k {
                                let w = choose|w: int|
                                    0 <= w < before[j].plots@.len() && before[j].plots@[w] == p;
                                assert(after[j].plots@[w] == p);
                            }
                            assert(files_at(after, j, r, p));
                        }
                    }
                }
            }
        } else {
            proof {
                assert(files_at(before, k as int, region, plot));
                assert(plots_in_region(before, region).insert(plot) =~= plots_in_region(
                    before,
                    region,
                ));
            }
        }
    } else {
        let mut plots: Vec<Address> = Vec::new();
        plots.push(plot);
        regions.push(RegionMapping { region_id: region, plots });
        let ghost after = regions@;
        proof {
            let n = before.len() as int;
            assert(after[n].plots@[0] == plot);
            assert forall|r: u64|
                #![trigger plots_in_region(after, r)]
                plots_in_region(after, r) =~= (if r == region {
                    plots_in_region(before, r).insert(plot)
                } else {
                    plots_in_region(before, r)
                }) by {
                assert forall|p: Address| plots_in_region(after, r).contains(p) implies (if r
                    == region {
                    plots_in_region(before, r).insert(plot)
                } else {
                    plots_in_region(before, r)
                }).contains(p) by {
                    let j = choose|j: int| files_at(after, j, r, p);
                    if j < n {
                        assert(files_at(before, j, r, p));
                    }
                }
                assert forall|p: Address|
                    (if r == region {
                        plots_in_region(before, r).insert(plot)
                    } else {
                        plots_in_region(before, r)
                    }).contains(p) implies plots_in_region(after, r).contains(p) by {
                    if r == region && p == plot {
                        assert(files_at(after, n, r, p));
                    } else {
                        let j = choose|j: int| files_at(before, j, r, p);
                        assert(files_at(after, j, r, p));
                    }
                }
            }
        }
    }
}

/// Claims every cell of the rectangle `(start_x, start_y, width, height)`
/// for `plot`, and files the plot under the region of the rectangle's
/// origin.
///
/// The rectangle must be free: the caller asks [`is_land_occupied`] first,
/// and nothing may come between the question and the claim. The region is
/// that of the origin alone, also where the rectangle reaches into another
/// region. Fails, and changes nothing, where a far edge of the rectangle is
/// no coordinate of the grid or the region number does not fit in a `u64`.
pub fn update_grid_state(
    grid: &mut GridState,
    start_x: u64,
    start_y: u64,
    width: u64,
    height: u64,
    plot: Address,
) -> (done: Result<(), LandError>)
    requires
        old(grid).wf(),
        old(grid).is_free(Rectangle { x: start_x, y: start_y, width, height }),
    ensures
        done is Ok <==> (Rectangle { x: start_x, y: start_y, width, height }).in_range()
            && region_of(start_x as int, start_y as int) <= u64::MAX,
        done matches Err(e) ==> e == LandError::CalculationError,
        done is Err ==> *final(grid) == *old(grid),
        done is Ok ==> final(grid).wf(),
        done is Ok ==> final(grid).is_claim_on(
            *old(grid),
            Rectangle { x: start_x, y: start_y, width, height },
            plot,
        ),
{
    let ghost rect = Rectangle { x: start_x, y: start_y, width, height };
    let end_x = match start_x.checked_add(width) {
        Some(e) => e,
        None => {
            return Err(LandError::CalculationError);
        },
    };
    let end_y = match start_y.checked_add(height) {
        Some(e) => e,
        None => {
            return Err(LandError::CalculationError);
        },
    };
    let region = calculate_region_id(start_x, start_y)?;
    let ghost before = grid.occupied_coordinates@;
    let ghost regions_before = grid.region_plots@;
    let mut x: u64 = start_x;
    assert(cell_map(before) =~= cell_map(before).union_prefer_right(
        claimed_before(rect, start_x as int, start_y as int, plot),
    ));
    while x < end_x
        invariant
            start_x <= x <= end_x,
            end_x == start_x + width,
            end_y == start_y + height,
            rect == (Rectangle { x: start_x, y: start_y, width, height }),
            grid.region_plots@ == regions_before,
            distinct_cells(grid.occupied_coordinates@),
            forall|cx: int, cy: int| rect.covers(cx, cy) ==> !cell_map(before).contains_key((cx, cy)),
            cell_map(grid.occupied_coordinates@) == cell_map(before).union_prefer_right(
                claimed_before(rect, x as int, start_y as int, plot),
            ),
        decreases end_x - x,
    {
        let mut y: u64 = start_y;
        while y < end_y
            invariant
                start_x <= x < end_x,
                start_y <= y <= end_y,
                end_x == start_x + width,
                end_y == start_y + height,
                rect == (Rectangle { x: start_x, y: start_y, width, height }),
                grid.region_plots@ == regions_before,
                distinct_cells(grid.occupied_coordinates@),
                forall|cx: int, cy: int|
                    rect.covers(cx, cy) ==> !cell_map(before).contains_key((cx, cy)),
                cell_map(grid.occupied_coordinates@) == cell_map(before).union_prefer_right(
                    claimed_before(rect, x as int, y as int, plot),
                ),
            decreases end_y - y,
        {
            let entry = CoordinateMapping { x, y, plot };
            proof {
                assert(rect.covers(x as int, y as int));
                lemma_push_cell(grid.occupied_coordinates@, entry);
                assert(cell_map(before).union_prefer_right(
                    claimed_before(rect, x as int, y as int, plot),
                ).insert((x as int, y as int), plot) =~= cell_map(before).union_prefer_right(
                    claimed_before(rect, x as int, y + 1, plot),
                ));
            }
            grid.occupied_coordinates.push(entry);
            y += 1;
        }
        proof {
            assert(claimed_before(rect, x as int, end_y as int, plot) =~= claimed_before(
                rect,
                x + 1,
                start_y as int,
                plot,
            ));
        }
        x += 1;
    }
    proof {
        assert(claimed_before(rect, end_x as int, start_y as int, plot) =~= claim_map(rect, plot));
    }
    file_plot(&mut grid.region_plots, region, plot);
    Ok(())
}

/// `kept` names the plots that `all` names, but for `plot`.
pub open spec fn is_list_without(kept: Seq<Address>, all: Seq<Address>, plot: Address) -> bool {
    forall|p: Address| kept.contains(p) <==> all.contains(p) && p != plot
}

/// The list without `plot`, in the same order.
fn without_address(plots: &Vec<Address>, plot: Address) -> (kept: Vec<Address>)
    requires
        plots@.no_duplicates(),
    ensures
        kept@.no_duplicates(),
        is_list_without(kept@, plots@, plot),
{
    let mut kept: Vec<Address> = Vec::new();
    let mut i: usize = 0;
    while i < plots.len()
        invariant
            i <= plots.len(),
            plots@.no_duplicates(),
            kept@.no_duplicates(),
            forall|p: Address| kept@.contains(p) <==> plots@.take(i as int).contains(p) && p != plot,
        decreases plots.len() - i,
    {
        let ghost seen = plots@.take(i as int);
        let ghost prior = kept@;
        let a = plots[i];
        proof {
            assert(plots@.take(i + 1) =~= seen.push(a));
        }
        if a != plot {
            kept.push(a);
            proof {
                assert forall|u: int, v: int|
                    0 <= u < kept@.len() && 0 <= v < kept@.len() && u != v implies kept@[u]
                    != kept@[v] by {
                    if u < prior.len() {
                        assert(prior.contains(prior[u]));
                    }
                    if v < prior.len() {
                        assert(prior.contains(prior[v]));
                    }
                }
                assert forall|p: Address| kept@.contains(p) <==> seen.push(a).contains(p) && p
                    != plot by {
                    if kept@.contains(p) {
                        let j = choose|j: int| 0 <= j < kept@.len() && kept@[j] == p;
                        if j < prior.len() {
                            assert(prior.contains(p));
                        } else {
                            assert(seen.push(a)[seen.len() as int] == p);
                        }
                    }
                    if seen.push(a).contains(p) && p != plot {
                        let w = choose|w: int| 0 <= w < seen.push(a).len() && seen.push(a)[w] == p;
                        if w < seen.len() {
                            assert(prior.contains(p));
                            let j = choose|j: int| 0 <= j < prior.len() && prior[j] == p;
                            assert(kept@[j] == p);
                        } else {
                            assert(kept@[prior.len() as int] == p);
                        }
                    }
                }
            }
        }
        i += 1;
    }
    proof {
        assert(plots@.take(plots@.len() as int) =~= plots@);
    }
    kept
}

/// Gives up every cell that `plot` holds, and takes the plot out of every
/// region's file.
pub fn release(grid: &mut GridState, plot: Address)
    requires
        old(grid).wf(),
    ensures
        final(grid).wf(),
        final(grid).is_release_of(*old(grid), plot),
{
    let ghost before = grid.occupied_coordinates@;
    let mut kept: Vec<CoordinateMapping> = Vec::new();
    let mut i: usize = 0;
    while i < grid.occupied_coordinates.len()
        invariant
            i <= before.len(),
            grid.occupied_coordinates@ == before,
            grid.region_plots@ == old(grid).region_plots@,
            distinct_cells(before),
            distinct_cells(kept@),
            cell_map(kept@) == without_plot(cell_map(before.take(i as int)), plot),
        decreases before.len() - i,
    {
        let entry = grid.occupied_coordinates[i];
        proof {
            let seen = before.take(i as int);
            assert(before.take(i + 1) =~= seen.push(entry));
            lemma_push_cell(seen, entry);
            if entry.plot != plot {
                lemma_push_cell(kept@, entry);
                assert(cell_map(kept@.push(entry)) =~= without_plot(
                    cell_map(seen.push(entry)),
                    plot,
                ));
            }
        }
        if entry.plot != plot {
            kept.push(entry);
        }
        i += 1;
    }
    proof {
        assert(before.take(before.len() as int) =~= before);
    }
    grid.occupied_coordinates = kept;
    let ghost regions_before = grid.region_plots@;
    let mut k: usize = 0;
    while k < grid.region_plots.len()
        invariant
            k <= regions_before.len(),
            distinct_cells(grid.occupied_coordinates@),
            cell_map(grid.occupied_coordinates@) == without_plot(cell_map(before), plot),
            distinct_regions(regions_before),
            grid.region_plots@.len() == regions_before.len(),
            forall|j: int|
                0 <= j < regions_before.len() ==> (#[trigger] grid.region_plots@[j]).region_id
                    == regions_before[j].region_id,
            forall|j: int|
                k <= j < regions_before.len() ==> (#[trigger] grid.region_plots@[j]).plots@
                    == regions_before[j].plots@,
            forall|j: int|
                0 <= j < k ==> (#[trigger] grid.region_plots@[j]).plots@.no_duplicates(),
            forall|j: int|
                0 <= j < k ==> is_list_without(
                    (#[trigger] grid.region_plots@[j]).plots@,
                    regions_before[j].plots@,
                    plot,
                ),
        decreases regions_before.len() - k,
    {
        let fewer = without_address(&grid.region_plots[k].plots, plot);
        grid.region_plots[k].plots = fewer;
        k += 1;
    }
    proof {
        let after = grid.region_plots@;
        assert forall|j: int| 0 <= j < after.len() implies #[trigger] after[j].plots@.no_duplicates() by {}
        assert forall|r: u64|
            #![trigger plots_in_region(after, r)]
            plots_in_region(after, r) =~= plots_in_region(regions_before, r).remove(plot) by {
            assert forall|p: Address| plots_in_region(after, r).contains(p) implies plots_in_region(
                regions_before,
                r,
            ).remove(plot).contains(p) by {
                let j = choose|j: int| files_at(after, j, r, p);
                assert(files_at(regions_before, j, r, p));
            }
            assert forall|p: Address|
                plots_in_region(regions_before, r).remove(plot).contains(p) implies plots_in_region(
                after,
                r,
            ).contains(p) by {
                let j = choose|j: int| files_at(regions_before, j, r, p);
                assert(files_at(after, j, r, p));
            }
        }
    }
}

/// Whether every claimed cell of the rectangle is held by one of the two
/// plots.
fn is_free_apart_from(
    grid: &GridState,
    start_x: u64,
    start_y: u64,
    width: u64,
    height: u64,
    plot_a: Address,
    plot_b: Address,
) -> (free: bool)
    requires
        (Rectangle { x: start_x, y: start_y, width, height }).in_range(),
    ensures
        free == grid.is_free_apart_from(
            Rectangle { x: start_x, y: start_y, width, height },
            plot_a,
            plot_b,
        ),
{
    let ghost rect = Rectangle { x: start_x, y: start_y, width, height };
    let end_x = start_x + width;
    let end_y = start_y + height;
    let mut x: u64 = start_x;
    while x < end_x
        invariant
            start_x <= x <= end_x,
            end_x == start_x + width,
            end_y == start_y + height,
            rect == (Rectangle { x: start_x, y: start_y, width, height }),
            forall|cx: int, cy: int|
                rect.covers(cx, cy) && cx < x && grid.cells().contains_key((cx, cy))
                    ==> grid.cells()[(cx, cy)] == plot_a || grid.cells()[(cx, cy)] == plot_b,
        decreases end_x - x,
    {
        let mut y: u64 = start_y;
        while y < end_y
            invariant
                start_x <= x < end_x,
                start_y <= y <= end_y,
                end_x == start_x + width,
                end_y == start_y + height,
                rect == (Rectangle { x: start_x, y: start_y, width, height }),
                forall|cx: int, cy: int|
                    rect.covers(cx, cy) && (cx < x || (cx == x && cy < y))
                        && grid.cells().contains_key((cx, cy)) ==> grid.cells()[(cx, cy)]
                        == plot_a || grid.cells()[(cx, cy)] == plot_b,
            decreases end_y - y,
        {
            match grid.owner_of(x, y) {
                Some(holder) => {
                    if holder != plot_a && holder != plot_b {
                        assert(rect.covers(x as int, y as int));
                        return false;
                    }
                },
                None => {},
            }
            y += 1;
        }
        x += 1;
    }
    true
}

/// Why the grid cannot be brought up to date after a merge into `rect`, if
/// it cannot: a far edge of the rectangle is no coordinate of the grid, the
/// region number of its origin does not fit in a `u64`, or a cell of it is
/// held by a third plot.
pub open spec fn merge_update_refusal(
    grid: GridState,
    plot_a: Address,
    plot_b: Address,
    rect: Rectangle,
) -> Option<LandError> {
    if !rect.in_range() || region_of(rect.x as int, rect.y as int) > u64::MAX {
        Some(LandError::CalculationError)
    } else if !grid.is_free_apart_from(rect, plot_a, plot_b) {
        Some(LandError::LandOccupied)
    } else {
        None
    }
}

/// Brings the grid up to date after `plot_b` was merged into `plot_a`:
/// both plots give up their cells, and `plot_a` claims the rectangle
/// `(new_x, new_y, new_width, new_height)` and is filed under the region of
/// its origin. `plot_b` is filed nowhere any more.
///
/// Fails, and changes nothing, where a far edge of the rectangle is no
/// coordinate of the grid, the region number does not fit in a `u64`, or a
/// cell of the rectangle is held by a third plot.
pub fn update_grid_after_merge(
    grid: &mut GridState,
    plot_a: Address,
    plot_b: Address,
    new_x: u64,
    new_y: u64,
    new_width: u64,
    new_height: u64,
) -> (done: Result<(), LandError>)
    requires
        old(grid).wf(),
    ensures
        ({
            let rect = Rectangle { x: new_x, y: new_y, width: new_width, height: new_height };
            match merge_update_refusal(*old(grid), plot_a, plot_b, rect) {
                Some(e) => done == Err::<(), LandError>(e) && *final(grid) == *old(grid),
                None => done is Ok && final(grid).wf() && final(grid).cells() == without_plot(
                    without_plot(old(grid).cells(), plot_b),
                    plot_a,
                ).union_prefer_right(claim_map(rect, plot_a)) && forall|r: u64|
                    #![trigger final(grid).filed_under(r)]
                    final(grid).filed_under(r) == (if r == region_of(new_x as int, new_y as int) {
                        old(grid).filed_under(r).remove(plot_b).remove(plot_a).insert(plot_a)
                    } else {
                        old(grid).filed_under(r).remove(plot_b).remove(plot_a)
                    }),
            }
        }),
{
    if new_x.checked_add(new_width).is_none() || new_y.checked_add(new_height).is_none() {
        return Err(LandError::CalculationError);
    }
    if calculate_region_id(new_x, new_y).is_err() {
        return Err(LandError::CalculationError);
    }
    if !is_free_apart_from(grid, new_x, new_y, new_width, new_height, plot_a, plot_b) {
        return Err(LandError::LandOccupied);
    }
    release(grid, plot_b);
    release(grid, plot_a);
    update_grid_state(grid, new_x, new_y, new_width, new_height, plot_a)
}

/// The cell `(px, py)` lies in the ring of cells around `rect`: it is not a
/// cell of the rectangle, but it touches one, by an edge or by a corner.
pub open spec fn in_border(rect: Rectangle, px: int, py: int) -> bool {
    &&& rect.has_area()
    &&& rect.x - 1 <= px <= rect.right()
    &&& rect.y - 1 <= py <= rect.bottom()
    &&& !rect.covers(px, py)
}

/// The cell `(px, py)` of the ring around `rect` is held by `plot`.
pub open spec fn neighbor_at(
    cells: Map<(int, int), Address>,
    rect: Rectangle,
    px: int,
    py: int,
    plot: Address,
) -> bool {
    in_border(rect, px, py) && cells.contains_key((px, py)) && cells[(px, py)] == plot
}

/// The plots that hold a cell of the ring around `rect`.
pub open spec fn neighbor_set(cells: Map<(int, int), Address>, rect: Rectangle) -> Set<Address> {
    Set::new(|p: Address| exists|px: int, py: int| neighbor_at(cells, rect, px, py, p))
}

/// The column step of the `k`-th of the eight directions: the four along
/// the axes first, then the four diagonals.
pub open spec fn step_x(k: int) -> int {
    if k == 0 || k == 4 || k == 5 {
        -1
    } else if k == 1 || k == 6 || k == 7 {
        1
    } else {
        0
    }
}

/// The row step of the `k`-th of the eight directions.
pub open spec fn step_y(k: int) -> int {
    if k == 2 || k == 4 || k == 6 {
        -1
    } else if k == 3 || k == 5 || k == 7 {
        1
    } else {
        0
    }
}

/// What looking from the cell `(cx, cy)` of `rect` in direction `k` adds to
/// the neighbours: the holder of the cell looked at, where that cell is
/// claimed and lies outside the rectangle.
pub open spec fn sighting(
    cells: Map<(int, int), Address>,
    rect: Rectangle,
    cx: int,
    cy: int,
    k: int,
) -> Option<Address> {
    let px = cx + step_x(k);
    let py = cy + step_y(k);
    if !rect.covers(px, py) && cells.contains_key((px, py)) {
        Some(cells[(px, py)])
    } else {
        None
    }
}

/// Every cell of the ring is looked at from some cell of the rectangle, in
/// one of the eight directions.
pub proof fn lemma_border_is_sighted(rect: Rectangle, px: int, py: int) -> (from: (int, int, int))
    requires
        in_border(rect, px, py),
    ensures
        rect.covers(from.0, from.1),
        0 <= from.2 < 8,
        from.0 + step_x(from.2) == px,
        from.1 + step_y(from.2) == py,
{
    let cx = if px < rect.x {
        rect.x as int
    } else if px >= rect.right() {
        rect.right() - 1
    } else {
        px
    };
    let cy = if py < rect.y {
        rect.y as int
    } else if py >= rect.bottom() {
        rect.bottom() - 1
    } else {
        py
    };
    let dx = px - cx;
    let dy = py - cy;
    let k: int = if dx == -1 && dy == 0 {
        0
    } else if dx == 1 && dy == 0 {
        1
    } else if dx == 0 && dy == -1 {
        2
    } else if dx == 0 && dy == 1 {
        3
    } else if dx == -1 && dy == -1 {
        4
    } else if dx == -1 && dy == 1 {
        5
    } else if dx == 1 && dy == -1 {
        6
    } else {
        7
    };
    (cx, cy, k)
}

/// A cell that is looked at from the rectangle and lies outside it is a
/// cell of the ring.
pub proof fn lemma_sighted_is_border(rect: Rectangle, cx: int, cy: int, k: int)
    requires
        rect.covers(cx, cy),
        0 <= k < 8,
        !rect.covers(cx + step_x(k), cy + step_y(k)),
    ensures
        in_border(rect, cx + step_x(k), cy + step_y(k)),
{
}

/// The cell that lies in direction `k` of `(x, y)`, if it is a cell of the
/// grid.
fn look(x: u64, y: u64, k: u8) -> (seen: Option<(u64, u64)>)
    requires
        k < 8,
    ensures
        seen matches Some(c) ==> c.0 == x + step_x(k as int) && c.1 == y + step_y(k as int),
        seen is None <==> !(0 <= x + step_x(k as int) <= u64::MAX && 0 <= y + step_y(k as int)
            <= u64::MAX),
{
    let px = if k == 0 || k == 4 || k == 5 {
        x.checked_sub(1)
    } else if k == 1 || k == 6 || k == 7 {
        x.checked_add(1)
    } else {
        Some(x)
    };
    let py = if k == 2 || k == 4 || k == 6 {
        y.checked_sub(1)
    } else if k == 3 || k == 5 || k == 7 {
        y.checked_add(1)
    } else {
        Some(y)
    };
    match (px, py) {
        (Some(a), Some(b)) => Some((a, b)),
        _ => None,
    }
}

/// The cell `(cx, cy)` and direction `k` come before `(x, y)` and `d` when
/// the rectangle is walked column by column and each cell looks in the
/// eight directions in turn.
pub open spec fn looked_before(cx: int, cy: int, k: int, x: int, y: int, d: int) -> bool {
    cx < x || (cx == x && (cy < y || (cy == y && k < d)))
}

/// The plots around the rectangle `(start_x, start_y, width, height)`.
///
/// From every cell of the rectangle the eight cells around it are looked
/// at; a cell outside the rectangle that is claimed adds its holder, once.
/// Cells beyond the edge of the grid are passed over. The answer is what
/// the grid holds now: it does not follow later changes. Fails where a far
/// edge of the rectangle is no coordinate of the grid.
pub fn find_neighboring_plots(
    grid: &GridState,
    start_x: u64,
    start_y: u64,
    width: u64,
    height: u64,
) -> (found: Result<Vec<Address>, LandError>)
    ensures
        ({
            let rect = Rectangle { x: start_x, y: start_y, width, height };
            &&& !rect.in_range() ==> (found matches Err(e) && e == LandError::CalculationError)
            &&& rect.in_range() ==> (found matches Ok(neighbors) && neighbors@.no_duplicates()
                && neighbors@.to_set() == neighbor_set(grid.cells(), rect))
        }),
{
    let ghost rect = Rectangle { x: start_x, y: start_y, width, height };
    let ghost cells = grid.cells();
    let end_x = match start_x.checked_add(width) {
        Some(e) => e,
        None => {
            return Err(LandError::CalculationError);
        },
    };
    let end_y = match start_y.checked_add(height) {
        Some(e) => e,
        None => {
            return Err(LandError::CalculationError);
        },
    };
    let mut neighbors: Vec<Address> = Vec::new();
    let mut x: u64 = start_x;
    while x < end_x
        invariant
            start_x <= x <= end_x,
            end_x == start_x + width,
            end_y == start_y + height,
            rect == (Rectangle { x: start_x, y: start_y, width, height }),
            cells == grid.cells(),
            neighbors@.no_duplicates(),
            forall|p: Address| neighbors@.contains(p) ==> neighbor_set(cells, rect).contains(p),
            forall|cx: int, cy: int, k: int|
                rect.covers(cx, cy) && 0 <= k < 8 && looked_before(
                    cx,
                    cy,
                    k,
                    x as int,
                    start_y as int,
                    0,
                ) ==> (#[trigger] sighting(cells, rect, cx, cy, k) matches Some(p)
                    ==> neighbors@.contains(p)),
        decreases end_x - x,
    {
        let mut y: u64 = start_y;
        while y < end_y
            invariant
                start_x <= x < end_x,
                start_y <= y <= end_y,
                end_x == start_x + width,
                end_y == start_y + height,
                rect == (Rectangle { x: start_x, y: start_y, width, height }),
                cells == grid.cells(),
                neighbors@.no_duplicates(),
                forall|p: Address| neighbors@.contains(p) ==> neighbor_set(cells, rect).contains(p),
                forall|cx: int, cy: int, k: int|
                    rect.covers(cx, cy) && 0 <= k < 8 && looked_before(
                        cx,
                        cy,
                        k,
                        x as int,
                        y as int,
                        0,
                    ) ==> (#[trigger] sighting(cells, rect, cx, cy, k) matches Some(p)
                        ==> neighbors@.contains(p)),
            decreases end_y - y,
        {
            let mut d: u8 = 0;
            while d < 8
                invariant
                    start_x <= x < end_x,
                    start_y <= y < end_y,
                    d <= 8,
                    end_x == start_x + width,
                    end_y == start_y + height,
                    rect == (Rectangle { x: start_x, y: start_y, width, height }),
                    cells == grid.cells(),
                    neighbors@.no_duplicates(),
                    forall|p: Address|
                        neighbors@.contains(p) ==> neighbor_set(cells, rect).contains(p),
                    forall|cx: int, cy: int, k: int|
                        rect.covers(cx, cy) && 0 <= k < 8 && looked_before(
                            cx,
                            cy,
                            k,
                            x as int,
                            y as int,
                            d as int,
                        ) ==> (#[trigger] sighting(cells, rect, cx, cy, k) matches Some(p)
                            ==> neighbors@.contains(p)),
                decreases 8 - d,
            {
                let ghost prior = neighbors@;
                match look(x, y, d) {
                    Some((px, py)) => {
                        let inside = start_x <= px && px < end_x && start_y <= py && py < end_y;
                        if !inside {
                            match grid.owner_of(px, py) {
                                Some(holder) => {
                                    proof {
                                        lemma_sighted_is_border(rect, x as int, y as int, d as int);
                                        assert(neighbor_at(
                                            cells,
                                            rect,
                                            px as int,
                                            py as int,
                                            holder,
                                        ));
                                    }
                                    if !names_plot(&neighbors, holder) {
                                        neighbors.push(holder);
                                        proof {
                                            assert forall|p: Address|
                                                neighbors@.contains(p) implies neighbor_set(
                                                cells,
                                                rect,
                                            ).contains(p) by {
                                                let j = choose|j: int|
                                                    0 <= j < neighbors@.len() && neighbors@[j] == p;
                                                if j < prior.len() {
                                                    assert(prior.contains(p));
                                                }
                                            }
                                            assert(neighbors@[prior.len() as int] == holder);
                                            assert forall|p: Address|
                                                prior.contains(p) implies neighbors@.contains(p) by {
                                                let j = choose|j: int|
                                                    0 <= j < prior.len() && prior[j] == p;
                                                assert(neighbors@[j] == p);
                                            }
                                        }
                                    }
                                },
                                None => {},
                            }
                        }
                    },
                    None => {},
                }
                assert(sighting(cells, rect, x as int, y as int, d as int) matches Some(p)
                    ==> neighbors@.contains(p));
                d += 1;
            }
            y += 1;
        }
        x += 1;
    }
    proof {
        assert forall|p: Address| neighbor_set(cells, rect).contains(p) implies neighbors@.contains(
            p,
        ) by {
            let (px, py) = choose|px: int, py: int| neighbor_at(cells, rect, px, py, p);
            let from = lemma_border_is_sighted(rect, px, py);
            assert(sighting(cells, rect, from.0, from.1, from.2) == Some(p));
        }
    }
    Ok(neighbors)
}

/// A claim files the plot under the region of the rectangle's origin, and
/// under that region alone: under the region of another cell of the
/// rectangle the plot is filed after the claim only where that is the
/// origin's region too, or where it was filed there before.
pub proof fn lemma_claim_files_under_origin(
    before: GridState,
    after: GridState,
    rect: Rectangle,
    plot: Address,
    cx: int,
    cy: int,
)
    requires
        after.is_claim_on(before, rect, plot),
        0 <= region_of(rect.x as int, rect.y as int) <= u64::MAX,
        rect.covers(cx, cy),
        0 <= region_of(cx, cy) <= u64::MAX,
    ensures
        after.filed_under(region_of(rect.x as int, rect.y as int) as u64).contains(plot),
        region_of(cx, cy) == region_of(rect.x as int, rect.y as int) ==> after.filed_under(
            region_of(cx, cy) as u64,
        ).contains(plot),
        region_of(cx, cy) != region_of(rect.x as int, rect.y as int) ==> (after.filed_under(
            region_of(cx, cy) as u64,
        ).contains(plot) <==> before.filed_under(region_of(cx, cy) as u64).contains(plot)),
{
}

/// Whether no plot is named twice in the list.
fn names_each_once(plots: &Vec<Address>) -> (ok: bool)
    ensures
        ok == plots@.no_duplicates(),
{
    let n = plots.len();
    let mut i: usize = 0;
    while i < n
        invariant
            i <= n,
            n == plots@.len(),
            forall|a: int, b: int| 0 <= a < i && a < b < n ==> plots@[a] != plots@[b],
        decreases n - i,
    {
        let mut j: usize = i + 1;
        while j < n
            invariant
                i < j <= n,
                n == plots@.len(),
                forall|a: int, b: int| 0 <= a < i && a < b < n ==> plots@[a] != plots@[b],
                forall|b: int| i < b < j ==> plots@[i as int] != plots@[b],
            decreases n - j,
        {
            if plots[i] == plots[j] {
                return false;
            }
            j += 1;
        }
        i += 1;
    }
    true
}

impl GridState {
    /// Whether the plot is filed under the region.
    pub fn files(&self, region: u64, plot: Address) -> (found: bool)
        ensures
            found == self.filed_under(region).contains(plot),
    {
        let mut k: usize = 0;
        while k < self.region_plots.len()
            invariant
                k <= self.region_plots.len(),
                forall|j: int| 0 <= j < k ==> !files_at(self.region_plots@, j, region, plot),
            decreases self.region_plots.len() - k,
        {
            if self.region_plots[k].region_id == region && names_plot(
                &self.region_plots[k].plots,
                plot,
            ) {
                assert(files_at(self.region_plots@, k as int, region, plot));
                return true;
            }
            k += 1;
        }
        false
    }

    /// Whether the grid is well formed: no cell is claimed twice, no region
    /// has two entries, and no entry names a plot twice.
    pub fn is_well_formed(&self) -> (ok: bool)
        ensures
            ok == self.wf(),
    {
        let cells = &self.occupied_coordinates;
        let n = cells.len();
        let mut i: usize = 0;
        while i < n
            invariant
                i <= n,
                n == cells@.len(),
                cells@ == self.occupied_coordinates@,
                forall|a: int, b: int|
                    0 <= a < i && a < b < n ==> !(cells@[a].x == cells@[b].x && cells@[a].y
                        == cells@[b].y),
            decreases n - i,
        {
            let mut j: usize = i + 1;
            while j < n
                invariant
                    i < j <= n,
                    n == cells@.len(),
                    cells@ == self.occupied_coordinates@,
                    forall|a: int, b: int|
                        0 <= a < i && a < b < n ==> !(cells@[a].x == cells@[b].x && cells@[a].y
                            == cells@[b].y),
                    forall|b: int|
                        i < b < j ==> !(cells@[i as int].x == cells@[b].x && cells@[i as int].y
                            == cells@[b].y),
                decreases n - j,
            {
                if cells[i].x == cells[j].x && cells[i].y == cells[j].y {
                    return false;
                }
                j += 1;
            }
            i += 1;
        }
        let regions = &self.region_plots;
        let m = regions.len();
        let mut k: usize = 0;
        while k < m
            invariant
                k <= m,
                m == regions@.len(),
                regions@ == self.region_plots@,
                forall|a: int, b: int|
                    0 <= a < k && a < b < m ==> regions@[a].region_id != regions@[b].region_id,
                forall|a: int| 0 <= a < k ==> #[trigger] regions@[a].plots@.no_duplicates(),
            decreases m - k,
        {
            if !names_each_once(&regions[k].plots) {
                return false;
            }
            let mut l: usize = k + 1;
            while l < m
                invariant
                    k < l <= m,
                    m == regions@.len(),
                    regions@ == self.region_plots@,
                    forall|a: int, b: int|
                        0 <= a < k && a < b < m ==> regions@[a].region_id != regions@[b].region_id,
                    forall|b: int| k < b < l ==> regions@[k as int].region_id != regions@[b].region_id,
                decreases m - l,
            {
                if regions[k].region_id == regions[l].region_id {
                    return false;
                }
                l += 1;
            }
            k += 1;
        }
        true
    }
}

} // verus!
