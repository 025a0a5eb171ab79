use gtopia::address::Address;
use gtopia::grid::update_grid_state;
use gtopia::state::{
    CoordinateMapping, GridState, InitializeCountryArgs, PurchaseLandArgs, RegionMapping,
    SplitPlotArgs,
};
use gtopia::territory::{initialize_country, Territory};

fn name(n: u128) -> Address {
    Address::new(3, n)
}

fn settled() -> Territory {
    let args = InitializeCountryArgs { width: 100, height: 100_000_000, price_per_unit: 1 };
    let mut t = initialize_country(name(100), name(101), name(102), args).unwrap().0;
    t.allocate(name(1), name(50), PurchaseLandArgs { start_x: 0, start_y: 0, width: 4, height: 4 }, Ok(()), 0)
        .unwrap();
    t.allocate(name(2), name(50), PurchaseLandArgs { start_x: 4, start_y: 0, width: 4, height: 4 }, Ok(()), 0)
        .unwrap();
    t.allocate(
        name(3),
        name(51),
        PurchaseLandArgs { start_x: 10, start_y: 1000, width: 2, height: 3 },
        Ok(()),
        0,
    )
    .unwrap();
    t
}

#[test]
fn new_and_settled_territories_are_well_formed() {
    let args = InitializeCountryArgs { width: 100, height: 100_000_000, price_per_unit: 1 };
    assert!(initialize_country(name(100), name(101), name(102), args).unwrap().0.is_well_formed());
    let mut t = settled();
    assert!(t.is_well_formed());
    t.split(name(1), name(4), name(50), SplitPlotArgs { split_x: 0, split_y: 0, width: 4, height: 1 }, 0)
        .unwrap();
    assert!(t.is_well_formed());
    t.merge(name(2), name(1), name(50)).unwrap_err();
    assert!(t.is_well_formed());
    t.merge(name(4), name(1), name(50)).unwrap();
    t.merge(name(4), name(2), name(50)).unwrap();
    assert!(t.is_well_formed());
    t.list_plot(name(4), name(50), 9).unwrap();
    assert!(t.is_well_formed());
}

#[test]
fn country_of_wrong_unit_count_is_not_well_formed() {
    let mut t = settled();
    t.country.total_units -= 1;
    assert!(!t.is_well_formed());
    assert!(!t.country.is_well_formed());
    let mut t = settled();
    t.country.units_sold = t.country.total_units + 1;
    assert!(!t.is_well_formed());
    let mut t = settled();
    t.country.width = 0;
    assert!(!t.country.is_well_formed());
    let mut t = settled();
    t.country.width = u64::MAX;
    t.country.height = u64::MAX;
    t.country.total_units = 1;
    assert!(!t.country.is_well_formed());
    assert!(settled().country.is_well_formed());
}

#[test]
fn cell_claimed_twice_is_not_well_formed() {
    let mut t = settled();
    t.grid.occupied_coordinates.push(CoordinateMapping { x: 0, y: 0, plot: name(1) });
    assert!(!t.grid.is_well_formed());
    assert!(!t.is_well_formed());
}

#[test]
fn region_with_two_entries_is_not_well_formed() {
    let mut grid = GridState::new();
    update_grid_state(&mut grid, 0, 0, 1, 1, name(1)).unwrap();
    assert!(grid.is_well_formed());
    grid.region_plots.push(RegionMapping { region_id: 0, plots: vec![] });
    assert!(!grid.is_well_formed());
    let mut grid = GridState::new();
    grid.region_plots.push(RegionMapping { region_id: 5, plots: vec![name(1), name(2), name(1)] });
    assert!(!grid.is_well_formed());
    grid.region_plots[0].plots.pop();
    assert!(grid.is_well_formed());
}

#[test]
fn grid_files_tells_what_is_filed() {
    let t = settled();
    assert!(t.grid.files(0, name(1)));
    assert!(t.grid.files(0, name(2)));
    assert!(t.grid.files(1000, name(3)));
    assert!(!t.grid.files(0, name(3)));
    assert!(!t.grid.files(1, name(1)));
}

#[test]
fn overlapping_plots_are_not_well_formed() {
    let mut t = settled();
    t.plots[1].start_x = 3;
    assert!(!t.is_well_formed());
}

#[test]
fn plot_outside_the_country_is_not_well_formed() {
    let mut t = settled();
    t.plots[2].start_x = 99;
    assert!(!t.is_well_formed());
    let mut t = settled();
    t.plots[2].width = 0;
    assert!(!t.is_well_formed());
}

#[test]
fn plot_with_a_wrong_region_is_not_well_formed() {
    let mut t = settled();
    t.plots[2].region_id = 0;
    assert!(!t.is_well_formed());
}

#[test]
fn two_plots_of_one_name_are_not_well_formed() {
    let mut t = settled();
    t.plots[1].id = name(1);
    assert!(!t.is_well_formed());
}

#[test]
fn claimed_cell_without_a_plot_is_not_well_formed() {
    let mut t = settled();
    t.grid.occupied_coordinates.push(CoordinateMapping { x: 50, y: 50, plot: name(1) });
    assert!(!t.is_well_formed());
    let mut t = settled();
    t.grid.occupied_coordinates.push(CoordinateMapping { x: 50, y: 50, plot: name(9) });
    assert!(!t.is_well_formed());
}

#[test]
fn plot_with_an_unclaimed_cell_is_not_well_formed() {
    let mut t = settled();
    t.grid.occupied_coordinates.pop();
    assert!(!t.is_well_formed());
    let mut t = settled();
    t.grid.occupied_coordinates[0].plot = name(2);
    assert!(!t.is_well_formed());
}

#[test]
fn wrong_filing_is_not_well_formed() {
    let mut t = settled();
    t.grid.region_plots[0].plots.pop();
    assert!(!t.is_well_formed());
    let mut t = settled();
    t.grid.region_plots.push(RegionMapping { region_id: 7, plots: vec![name(1)] });
    assert!(!t.is_well_formed());
    let mut t = settled();
    t.grid.region_plots.push(RegionMapping { region_id: 7, plots: vec![name(9)] });
    assert!(!t.is_well_formed());
    let mut t = settled();
    t.grid.region_plots.push(RegionMapping { region_id: 7, plots: vec![] });
    assert!(t.is_well_formed());
}
