use gtopia::address::Address;
use gtopia::error::LandError;
use gtopia::state::{
    CountryInitialized, InitializeCountryArgs, LandPurchased, PlotSplit, PlotsMerged,
    PurchaseLandArgs, SplitPlotArgs,
};
use gtopia::territory::{initialize_country, Territory};

fn who(n: u128) -> Address {
    Address::new(1, n)
}

fn id(n: u128) -> Address {
    Address::new(2, n)
}

fn new_country() -> Territory {
    let args = InitializeCountryArgs { width: 100, height: 100_000_000, price_per_unit: 5 };
    initialize_country(who(100), who(101), who(102), args).unwrap().0
}

fn area(x: u64, y: u64, width: u64, height: u64) -> PurchaseLandArgs {
    PurchaseLandArgs { start_x: x, start_y: y, width, height }
}

fn cut(x: u64, y: u64, width: u64, height: u64) -> SplitPlotArgs {
    SplitPlotArgs { split_x: x, split_y: y, width, height }
}

fn rect_of(t: &Territory, plot: Address) -> (u64, u64, u64, u64) {
    let p = &t.plots[t.find_plot(plot).unwrap()];
    (p.start_x, p.start_y, p.width, p.height)
}

fn neighbors_of(t: &Territory, plot: Address) -> Vec<Address> {
    let mut v = t.plots[t.find_plot(plot).unwrap()].neighbors.clone();
    v.sort_by_key(|a| (a.hi, a.lo));
    v
}

fn cells_of(t: &Territory) -> Vec<(u64, u64, Address)> {
    let mut v: Vec<(u64, u64, Address)> =
        t.grid.occupied_coordinates.iter().map(|c| (c.x, c.y, c.plot)).collect();
    v.sort_by_key(|c| (c.0, c.1));
    v
}

fn files_of(t: &Territory) -> Vec<(u64, Address)> {
    let mut v = Vec::new();
    for m in t.grid.region_plots.iter() {
        for p in m.plots.iter() {
            v.push((m.region_id, *p));
        }
    }
    v.sort_by_key(|f| (f.0, f.1.hi, f.1.lo));
    v
}

/// No cell is claimed twice, every claimed cell lies in the plot that holds it, and every
/// cell of every plot is claimed for that plot.
fn check_no_overlap(t: &Territory) {
    assert!(t.is_well_formed());
    let cells = cells_of(t);
    for pair in cells.windows(2) {
        assert!((pair[0].0, pair[0].1) != (pair[1].0, pair[1].1));
    }
    let mut covered = 0u64;
    for p in t.plots.iter() {
        covered += p.width * p.height;
        for x in p.start_x..p.start_x + p.width {
            for y in p.start_y..p.start_y + p.height {
                assert_eq!(t.grid.owner_of(x, y), Some(p.id));
            }
        }
    }
    assert_eq!(covered as usize, cells.len());
    for (i, p) in t.plots.iter().enumerate() {
        for q in t.plots.iter().skip(i + 1) {
            let apart = p.start_x + p.width <= q.start_x
                || q.start_x + q.width <= p.start_x
                || p.start_y + p.height <= q.start_y
                || q.start_y + q.height <= p.start_y;
            assert!(apart);
            assert!(p.id != q.id);
        }
    }
}

#[test]
fn country_must_have_ten_billion_units() {
    let made = initialize_country(
        who(100),
        who(101),
        who(102),
        InitializeCountryArgs { width: 100, height: 100_000_000, price_per_unit: 5 },
    );
    let (t, event) = made.unwrap();
    assert_eq!(
        event,
        CountryInitialized {
            authority: who(100),
            width: 100,
            height: 100_000_000,
            payment_mint: who(101)
        }
    );
    assert_eq!(t.country.total_units, 10_000_000_000);
    assert_eq!(t.country.units_sold, 0);
    assert_eq!(t.country.price_per_unit, 5);
    assert_eq!(t.country.treasury, who(102));
    assert!(t.plots.is_empty());
    assert!(t.grid.occupied_coordinates.is_empty());
}

#[test]
fn country_of_other_size_is_refused() {
    for &(w, h) in [(100u64, 100u64), (0, 10_000_000_000), (10_000_000_000, 0), (u64::MAX, u64::MAX), (1 << 32, 1 << 32)].iter() {
        let made = initialize_country(
            who(100),
            who(101),
            who(102),
            InitializeCountryArgs { width: w, height: h, price_per_unit: 5 },
        );
        assert_eq!(made.err(), Some(LandError::InvalidDimensions));
    }
    assert!(initialize_country(
        who(100),
        who(101),
        who(102),
        InitializeCountryArgs { width: 10_000_000_000, height: 1, price_per_unit: 0 },
    )
    .is_ok());
}

#[test]
fn scenario_allocate_overlap_neighbor_merge() {
    let mut t = new_country();
    let first = t.allocate(id(1), who(1), area(0, 0, 10, 10), Ok(()), 1000);
    assert_eq!(
        first,
        Ok(LandPurchased {
            buyer: who(1),
            plot: id(1),
            start_x: 0,
            start_y: 0,
            width: 10,
            height: 10,
            price: 500
        })
    );
    assert_eq!(t.country.units_sold, 100);
    check_no_overlap(&t);

    let before = cells_of(&t);
    assert_eq!(t.allocate(id(2), who(1), area(5, 5, 10, 10), Ok(()), 1001), Err(LandError::LandOccupied));
    assert_eq!(cells_of(&t), before);
    assert_eq!(t.plots.len(), 1);
    assert_eq!(t.country.units_sold, 100);

    assert!(t.allocate(id(2), who(1), area(10, 0, 10, 10), Ok(()), 1002).is_ok());
    assert_eq!(t.country.units_sold, 200);
    assert!(t.plots[1].neighbors.contains(&id(1)));
    assert_eq!(neighbors_of(&t, id(2)), vec![id(1)]);
    // The first plot's record of its neighbours is of the time of its creation.
    assert_eq!(neighbors_of(&t, id(1)), vec![]);
    check_no_overlap(&t);

    assert!(t.allocate(id(3), who(1), area(50, 50, 5, 5), Ok(()), 1003).is_ok());
    check_no_overlap(&t);

    let merged = t.merge(id(1), id(2), who(1));
    assert_eq!(
        merged,
        Ok(PlotsMerged {
            plot_a: id(1),
            plot_b: id(2),
            new_x: 0,
            new_y: 0,
            new_width: 20,
            new_height: 10
        })
    );
    assert_eq!(t.plots.len(), 2);
    assert_eq!(rect_of(&t, id(1)), (0, 0, 20, 10));
    assert_eq!(t.find_plot(id(2)), None);
    assert_eq!(t.country.units_sold, 225);
    check_no_overlap(&t);

    let before = cells_of(&t);
    assert_eq!(t.merge(id(1), id(3), who(1)), Err(LandError::PlotsNotAdjacent));
    assert_eq!(t.merge(id(3), id(1), who(1)), Err(LandError::PlotsNotAdjacent));
    assert_eq!(cells_of(&t), before);
    assert_eq!(t.plots.len(), 2);
}

#[test]
fn allocate_records_the_plot() {
    let mut t = new_country();
    t.allocate(id(1), who(1), area(10, 1000, 10, 10), Ok(()), 77).unwrap();
    let p = &t.plots[0];
    assert_eq!(p.id, id(1));
    assert_eq!(p.owner, who(1));
    assert!(!p.is_listed);
    assert_eq!(p.price_per_unit, 0);
    assert_eq!(p.timestamp, 77);
    assert_eq!(p.region_id, 1000);
    assert_eq!(files_of(&t), vec![(1000, id(1))]);
}

#[test]
fn allocate_refusals_come_in_order() {
    let mut t = new_country();
    t.allocate(id(1), who(1), area(0, 0, 10, 10), Ok(()), 0).unwrap();
    // Out of the country, even where it overlaps a plot or has no area.
    assert_eq!(t.allocate(id(2), who(1), area(95, 5, 10, 10), Ok(()), 0), Err(LandError::InvalidPlot));
    assert_eq!(t.allocate(id(2), who(1), area(101, 0, 0, 0), Ok(()), 0), Err(LandError::InvalidPlot));
    assert_eq!(
        t.allocate(id(2), who(1), area(0, 99_999_999, 1, 2), Ok(()), 0),
        Err(LandError::InvalidPlot)
    );
    assert_eq!(t.allocate(id(2), who(1), area(u64::MAX, 0, 2, 2), Ok(()), 0), Err(LandError::InvalidPlot));
    // Without area.
    assert_eq!(t.allocate(id(2), who(1), area(5, 5, 0, 3), Ok(()), 0), Err(LandError::InvalidDimensions));
    assert_eq!(t.allocate(id(2), who(1), area(50, 5, 3, 0), Ok(()), 0), Err(LandError::InvalidDimensions));
    // On a plot, even under a name that is in use.
    assert_eq!(t.allocate(id(1), who(1), area(9, 9, 1, 1), Ok(()), 0), Err(LandError::LandOccupied));
    // Under a name that is in use.
    assert_eq!(t.allocate(id(1), who(2), area(20, 20, 1, 1), Ok(()), 0), Err(LandError::InvalidPlot));
    assert_eq!(t.plots.len(), 1);
    assert_eq!(t.country.units_sold, 100);
    assert_eq!(t.grid.occupied_coordinates.len(), 100);
}

#[test]
fn allocate_fails_when_the_price_overflows() {
    let args = InitializeCountryArgs { width: 100, height: 100_000_000, price_per_unit: u64::MAX };
    let mut t = initialize_country(who(100), who(101), who(102), args).unwrap().0;
    assert_eq!(t.quote(id(1), area(0, 0, 1, 1)), Ok(u64::MAX));
    assert_eq!(t.quote(id(1), area(0, 0, 2, 1)), Err(LandError::CalculationError));
    assert_eq!(t.allocate(id(1), who(1), area(0, 0, 2, 1), Ok(()), 0), Err(LandError::CalculationError));
    assert!(t.plots.is_empty());
    assert!(t.grid.occupied_coordinates.is_empty());
    assert!(t.allocate(id(1), who(1), area(0, 0, 1, 1), Ok(()), 0).is_ok());
}

#[test]
fn allocate_fails_when_more_would_be_sold_than_there_is() {
    let mut t = new_country();
    t.country.units_sold = 10_000_000_000 - 3;
    assert_eq!(t.allocate(id(1), who(1), area(0, 0, 2, 2), Ok(()), 0), Err(LandError::CalculationError));
    assert!(t.plots.is_empty());
    assert_eq!(t.allocate(id(1), who(1), area(0, 0, 3, 1), Ok(()), 0).map(|e| e.price), Ok(15));
    assert_eq!(t.country.units_sold, 10_000_000_000);
}

#[test]
fn quote_is_unit_price_times_area() {
    let t = new_country();
    assert_eq!(t.quote(id(1), area(0, 0, 10, 10)), Ok(500));
    assert_eq!(t.quote(id(1), area(7, 7, 3, 4)), Ok(60));
}

#[test]
fn quote_refuses_what_allocate_refuses() {
    let mut t = new_country();
    t.allocate(id(1), who(1), area(0, 0, 10, 10), Ok(()), 0).unwrap();
    assert_eq!(t.quote(id(2), area(95, 5, 10, 10)), Err(LandError::InvalidPlot));
    assert_eq!(t.quote(id(2), area(5, 5, 0, 3)), Err(LandError::InvalidDimensions));
    assert_eq!(t.quote(id(2), area(9, 9, 1, 1)), Err(LandError::LandOccupied));
    assert_eq!(t.quote(id(1), area(20, 20, 1, 1)), Err(LandError::InvalidPlot));
    assert_eq!(t.quote(id(2), area(20, 20, 2, 3)), Ok(30));
    assert_eq!(t.plots.len(), 1);
}

#[test]
fn allocate_hands_back_a_failed_settlement() {
    let mut t = new_country();
    assert_eq!(
        t.allocate(id(1), who(1), area(0, 0, 10, 10), Err(LandError::InsufficientFunds), 0),
        Err(LandError::InsufficientFunds)
    );
    assert_eq!(
        t.allocate(id(1), who(1), area(0, 0, 10, 10), Err(LandError::InvalidPayment), 0),
        Err(LandError::InvalidPayment)
    );
    assert!(t.plots.is_empty());
    assert!(t.grid.occupied_coordinates.is_empty());
    assert_eq!(t.country.units_sold, 0);
    // A refusal comes before the settlement.
    assert_eq!(
        t.allocate(id(1), who(1), area(95, 0, 10, 10), Err(LandError::InsufficientFunds), 0),
        Err(LandError::InvalidPlot)
    );
    assert!(t.allocate(id(1), who(1), area(0, 0, 10, 10), Ok(()), 0).is_ok());
}

#[test]
fn split_of_a_left_strip() {
    let mut t = new_country();
    t.allocate(id(1), who(1), area(10, 10, 10, 10), Ok(()), 5).unwrap();
    let done = t.split(id(1), id(2), who(1), cut(10, 10, 4, 10), 9);
    assert_eq!(
        done,
        Ok(PlotSplit {
            original_plot: id(1),
            new_plot: id(2),
            split_x: 10,
            split_y: 10,
            width: 4,
            height: 10
        })
    );
    assert_eq!(rect_of(&t, id(1)), (14, 10, 6, 10));
    assert_eq!(rect_of(&t, id(2)), (10, 10, 4, 10));
    let p = &t.plots[t.find_plot(id(2)).unwrap()];
    assert_eq!(p.owner, who(1));
    assert_eq!(p.timestamp, 9);
    assert!(!p.is_listed);
    assert_eq!(neighbors_of(&t, id(2)), vec![id(1)]);
    assert_eq!(t.grid.owner_of(13, 19), Some(id(2)));
    assert_eq!(t.grid.owner_of(14, 19), Some(id(1)));
    assert_eq!(t.country.units_sold, 100);
    assert_eq!(files_of(&t), vec![(0, id(1)), (0, id(2))]);
    check_no_overlap(&t);
}

#[test]
fn split_of_a_top_strip() {
    let mut t = new_country();
    t.allocate(id(1), who(1), area(10, 10, 10, 10), Ok(()), 5).unwrap();
    assert!(t.split(id(1), id(2), who(1), cut(10, 10, 10, 3), 9).is_ok());
    assert_eq!(rect_of(&t, id(1)), (10, 13, 10, 7));
    assert_eq!(rect_of(&t, id(2)), (10, 10, 10, 3));
    check_no_overlap(&t);
}

#[test]
fn split_files_the_old_plot_under_its_new_origin() {
    let mut t = new_country();
    t.allocate(id(1), who(1), area(0, 995, 10, 10), Ok(()), 5).unwrap();
    assert_eq!(files_of(&t), vec![(0, id(1))]);
    assert!(t.split(id(1), id(2), who(1), cut(0, 995, 10, 5), 9).is_ok());
    assert_eq!(rect_of(&t, id(1)), (0, 1000, 10, 5));
    assert_eq!(files_of(&t), vec![(0, id(2)), (1000, id(1))]);
    assert_eq!(t.plots[0].region_id, 1000);
    assert_eq!(t.plots[1].region_id, 0);
    check_no_overlap(&t);
}

#[test]
fn split_refusals() {
    let mut t = new_country();
    t.allocate(id(1), who(1), area(10, 10, 10, 10), Ok(()), 5).unwrap();
    t.allocate(id(3), who(1), area(30, 10, 10, 10), Ok(()), 5).unwrap();
    let before = cells_of(&t);
    assert_eq!(t.split(id(9), id(2), who(1), cut(10, 10, 4, 10), 9), Err(LandError::InvalidPlot));
    assert_eq!(t.split(id(1), id(2), who(2), cut(10, 10, 4, 10), 9), Err(LandError::NotOwner));
    assert_eq!(t.split(id(1), id(2), who(1), cut(10, 10, 11, 10), 9), Err(LandError::InvalidSplit));
    assert_eq!(t.split(id(1), id(2), who(1), cut(9, 10, 4, 10), 9), Err(LandError::InvalidSplit));
    assert_eq!(
        t.split(id(1), id(2), who(1), cut(12, 12, 3, 3), 9),
        Err(LandError::NonContiguousPlot)
    );
    assert_eq!(
        t.split(id(1), id(2), who(1), cut(16, 10, 4, 10), 9),
        Err(LandError::NonContiguousPlot)
    );
    assert_eq!(
        t.split(id(1), id(2), who(1), cut(10, 10, 4, 9), 9),
        Err(LandError::NonContiguousPlot)
    );
    assert_eq!(
        t.split(id(1), id(2), who(1), cut(10, 10, 10, 10), 9),
        Err(LandError::NonContiguousPlot)
    );
    assert_eq!(
        t.split(id(1), id(2), who(1), cut(10, 10, 0, 10), 9),
        Err(LandError::NonContiguousPlot)
    );
    assert_eq!(t.split(id(1), id(3), who(1), cut(10, 10, 4, 10), 9), Err(LandError::InvalidPlot));
    assert_eq!(t.split(id(1), id(1), who(1), cut(10, 10, 4, 10), 9), Err(LandError::InvalidPlot));
    assert_eq!(cells_of(&t), before);
    assert_eq!(t.plots.len(), 2);
    assert_eq!(rect_of(&t, id(1)), (10, 10, 10, 10));
}

#[test]
fn split_then_merge_restores_the_plot() {
    let mut t = new_country();
    t.allocate(id(7), who(2), area(0, 0, 10, 30), Ok(()), 1).unwrap();
    t.allocate(id(8), who(2), area(30, 10, 5, 5), Ok(()), 2).unwrap();
    t.allocate(id(1), who(1), area(10, 10, 20, 10), Ok(()), 3).unwrap();
    assert_eq!(neighbors_of(&t, id(1)), vec![id(7), id(8)]);
    let cells = cells_of(&t);
    let files = files_of(&t);
    let units = t.country.units_sold;

    assert!(t.split(id(1), id(2), who(1), cut(10, 10, 20, 4), 4).is_ok());
    check_no_overlap(&t);
    assert!(t.merge(id(1), id(2), who(1)).is_ok());

    assert_eq!(rect_of(&t, id(1)), (10, 10, 20, 10));
    assert_eq!(neighbors_of(&t, id(1)), vec![id(7), id(8)]);
    assert_eq!(cells_of(&t), cells);
    assert_eq!(files_of(&t), files);
    assert_eq!(t.country.units_sold, units);
    assert_eq!(t.plots.len(), 3);
    assert_eq!(t.find_plot(id(2)), None);
    let p = &t.plots[t.find_plot(id(1)).unwrap()];
    assert_eq!((p.owner, p.timestamp, p.region_id), (who(1), 3, 0));
    check_no_overlap(&t);
}

#[test]
fn merge_into_the_new_plot_keeps_the_new_name() {
    let mut t = new_country();
    t.allocate(id(1), who(1), area(10, 10, 20, 10), Ok(()), 3).unwrap();
    t.split(id(1), id(2), who(1), cut(10, 10, 5, 10), 4).unwrap();
    assert!(t.merge(id(2), id(1), who(1)).is_ok());
    assert_eq!(rect_of(&t, id(2)), (10, 10, 20, 10));
    assert_eq!(t.find_plot(id(1)), None);
    assert_eq!(files_of(&t), vec![(0, id(2))]);
    check_no_overlap(&t);
}

#[test]
fn merge_refusals() {
    let mut t = new_country();
    t.allocate(id(1), who(1), area(0, 0, 10, 10), Ok(()), 0).unwrap();
    t.allocate(id(2), who(2), area(10, 0, 10, 10), Ok(()), 0).unwrap();
    t.allocate(id(3), who(1), area(0, 10, 4, 10), Ok(()), 0).unwrap();
    t.allocate(id(4), who(1), area(10, 10, 3, 3), Ok(()), 0).unwrap();
    let before = cells_of(&t);
    assert_eq!(t.merge(id(1), id(9), who(1)), Err(LandError::InvalidPlot));
    assert_eq!(t.merge(id(9), id(1), who(1)), Err(LandError::InvalidPlot));
    assert_eq!(t.merge(id(1), id(2), who(1)), Err(LandError::NotOwner));
    assert_eq!(t.merge(id(1), id(2), who(2)), Err(LandError::NotOwner));
    assert_eq!(t.merge(id(1), id(3), who(3)), Err(LandError::NotOwner));
    // An L shape: adjacent, but the two do not fill their bounding box.
    assert_eq!(t.merge(id(1), id(3), who(1)), Err(LandError::NonContiguousPlot));
    // Touching at a corner only.
    assert_eq!(t.merge(id(1), id(4), who(1)), Err(LandError::NonContiguousPlot));
    assert_eq!(t.merge(id(1), id(1), who(1)), Err(LandError::PlotsNotAdjacent));
    assert_eq!(cells_of(&t), before);
    assert_eq!(t.plots.len(), 4);
    check_no_overlap(&t);
}

#[test]
fn merge_moves_later_plots_up() {
    let mut t = new_country();
    t.allocate(id(1), who(1), area(0, 0, 10, 10), Ok(()), 0).unwrap();
    t.allocate(id(2), who(1), area(0, 10, 10, 10), Ok(()), 0).unwrap();
    t.allocate(id(3), who(1), area(40, 40, 2, 2), Ok(()), 0).unwrap();
    assert!(t.merge(id(2), id(1), who(1)).is_ok());
    assert_eq!(t.plots.len(), 2);
    assert_eq!(t.plots[0].id, id(2));
    assert_eq!(t.plots[1].id, id(3));
    assert_eq!(rect_of(&t, id(2)), (0, 0, 10, 20));
    assert_eq!(rect_of(&t, id(3)), (40, 40, 2, 2));
    check_no_overlap(&t);
}

#[test]
fn listing_and_unlisting() {
    let mut t = new_country();
    t.allocate(id(1), who(1), area(0, 0, 10, 10), Ok(()), 0).unwrap();
    assert_eq!(t.list_plot(id(9), who(1), 7), Err(LandError::InvalidPlot));
    assert_eq!(t.list_plot(id(1), who(2), 7), Err(LandError::NotOwner));
    assert_eq!(t.list_plot(id(1), who(1), 0), Err(LandError::InvalidPrice));
    assert_eq!(t.unlist_plot(id(1), who(1)), Err(LandError::NotListed));
    assert_eq!(t.list_plot(id(1), who(1), 7), Ok(()));
    assert!(t.plots[0].is_listed);
    assert_eq!(t.plots[0].price_per_unit, 7);
    assert_eq!(t.list_plot(id(1), who(1), 8), Err(LandError::AlreadyListed));
    assert_eq!(t.plots[0].price_per_unit, 7);
    assert_eq!(t.unlist_plot(id(9), who(1)), Err(LandError::InvalidPlot));
    assert_eq!(t.unlist_plot(id(1), who(2)), Err(LandError::NotOwner));
    assert_eq!(t.unlist_plot(id(1), who(1)), Ok(()));
    assert!(!t.plots[0].is_listed);
    assert_eq!(t.plots[0].price_per_unit, 0);
    assert_eq!(rect_of(&t, id(1)), (0, 0, 10, 10));
    check_no_overlap(&t);
}
