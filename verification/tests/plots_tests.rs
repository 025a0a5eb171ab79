use gtopia::address::Address;
use gtopia::error::LandError;
use gtopia::plots::{
    are_plots_adjacent, calculate_merged_dimensions, is_valid_plot, is_within_plot,
    update_original_plot_after_split,
};
use gtopia::state::{CountryState, LandPlot};

fn sample_country() -> CountryState {
    CountryState {
        authority: Address::new(0, 1),
        width: 100,
        height: 100_000_000,
        total_units: 10_000_000_000,
        units_sold: 0,
        payment_mint: Address::new(0, 2),
        price_per_unit: 5,
        treasury: Address::new(0, 3),
        regions: Vec::new(),
    }
}

fn plot_at(x: u64, y: u64, width: u64, height: u64) -> LandPlot {
    LandPlot {
        id: Address::new(7, 7),
        owner: Address::new(0, 9),
        start_x: x,
        start_y: y,
        width,
        height,
        is_listed: true,
        price_per_unit: 11,
        timestamp: 5,
        neighbors: vec![Address::new(1, 1)],
        region_id: 0,
    }
}

fn rectangle_of(plot: &LandPlot) -> (u64, u64, u64, u64) {
    (plot.start_x, plot.start_y, plot.width, plot.height)
}

#[test]
fn valid_plot_lies_in_the_country_and_has_area() {
    let c = sample_country();
    assert_eq!(is_valid_plot(&c, 0, 0, 10, 10), Ok(true));
    assert_eq!(is_valid_plot(&c, 90, 99_999_990, 10, 10), Ok(true));
    assert_eq!(is_valid_plot(&c, 91, 0, 10, 10), Ok(false));
    assert_eq!(is_valid_plot(&c, 0, 99_999_991, 10, 10), Ok(false));
    assert_eq!(is_valid_plot(&c, 0, 0, 0, 10), Ok(false));
    assert_eq!(is_valid_plot(&c, 0, 0, 10, 0), Ok(false));
    assert_eq!(is_valid_plot(&c, u64::MAX, 0, 2, 1), Ok(false));
}

#[test]
fn within_plot_compares_all_four_edges() {
    let p = plot_at(10, 20, 30, 40);
    assert_eq!(is_within_plot(&p, 10, 20, 30, 40), Ok(true));
    assert_eq!(is_within_plot(&p, 15, 25, 5, 5), Ok(true));
    assert_eq!(is_within_plot(&p, 9, 25, 5, 5), Ok(false));
    assert_eq!(is_within_plot(&p, 15, 19, 5, 5), Ok(false));
    assert_eq!(is_within_plot(&p, 15, 25, 26, 5), Ok(false));
    assert_eq!(is_within_plot(&p, 15, 25, 5, 36), Ok(false));
}

#[test]
fn plots_touching_are_adjacent() {
    let a = plot_at(0, 0, 10, 10);
    assert_eq!(are_plots_adjacent(&a, &plot_at(10, 0, 10, 10)), Ok(true));
    assert_eq!(are_plots_adjacent(&plot_at(10, 0, 10, 10), &a), Ok(true));
    assert_eq!(are_plots_adjacent(&a, &plot_at(10, 10, 1, 1)), Ok(true));
    assert_eq!(are_plots_adjacent(&a, &plot_at(11, 0, 10, 10)), Ok(false));
    assert_eq!(are_plots_adjacent(&a, &plot_at(50, 50, 5, 5)), Ok(false));
}

#[test]
fn merged_dimensions_are_the_bounding_box() {
    let a = plot_at(0, 0, 10, 10);
    let b = plot_at(10, 0, 10, 10);
    assert_eq!(calculate_merged_dimensions(&a, &b), Ok((0, 0, 20, 10)));
    assert_eq!(calculate_merged_dimensions(&b, &a), Ok((0, 0, 20, 10)));
    assert_eq!(
        calculate_merged_dimensions(&plot_at(u64::MAX, 0, 1, 1), &a),
        Err(LandError::CalculationError)
    );
}

#[test]
fn split_of_a_left_strip_moves_the_origin_right() {
    let mut p = plot_at(10, 20, 30, 40);
    assert_eq!(update_original_plot_after_split(&mut p, 10, 20, 12, 40), Ok(()));
    assert_eq!(rectangle_of(&p), (22, 20, 18, 40));
    assert_eq!(p.id, Address::new(7, 7));
    assert_eq!(p.owner, Address::new(0, 9));
    assert!(p.is_listed);
    assert_eq!(p.price_per_unit, 11);
    assert_eq!(p.neighbors, vec![Address::new(1, 1)]);
}

#[test]
fn split_of_a_top_strip_moves_the_origin_down() {
    let mut p = plot_at(10, 20, 30, 40);
    assert_eq!(update_original_plot_after_split(&mut p, 10, 20, 30, 15), Ok(()));
    assert_eq!(rectangle_of(&p), (10, 35, 30, 25));
}

#[test]
fn split_that_is_not_a_strip_is_refused() {
    let inputs = [
        (10u64, 20u64, 12u64, 39u64), // at the corner, but neither as high nor as wide
        (15, 20, 5, 40),              // full height, but not at the left edge
        (10, 25, 30, 5),              // full width, but not at the top edge
        (28, 20, 12, 40),             // a strip along the right edge
        (20, 30, 5, 5),               // a hole
        (10, 20, 30, 40),             // the whole plot
        (10, 20, 0, 40),              // no width
        (10, 20, 30, 0),              // no height
    ];
    for &(x, y, w, h) in inputs.iter() {
        let mut p = plot_at(10, 20, 30, 40);
        assert_eq!(
            update_original_plot_after_split(&mut p, x, y, w, h),
            Err(LandError::NonContiguousPlot)
        );
        assert_eq!(rectangle_of(&p), (10, 20, 30, 40));
    }
}

#[test]
fn split_of_a_plot_beyond_the_grid_fails() {
    let mut p = plot_at(u64::MAX - 5, 0, 10, 10);
    assert_eq!(
        update_original_plot_after_split(&mut p, u64::MAX - 5, 0, 3, 10),
        Err(LandError::CalculationError)
    );
    assert_eq!(rectangle_of(&p), (u64::MAX - 5, 0, 10, 10));
}
