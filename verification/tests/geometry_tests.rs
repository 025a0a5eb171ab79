use gtopia::error::LandError;
use gtopia::geometry::{merged_bounds, rectangle_within, rectangles_adjacent, Rectangle};

#[test]
fn rectangle_inside_container() {
    let c = Rectangle::new(2, 3, 10, 10);
    assert!(rectangle_within(&c, 2, 3, 10, 10));
    assert!(rectangle_within(&c, 4, 5, 8, 8));
    assert!(!rectangle_within(&c, 4, 5, 9, 8));
    assert!(!rectangle_within(&c, 4, 5, 8, 9));
    assert!(!rectangle_within(&c, 1, 3, 2, 2));
    assert!(!rectangle_within(&c, 2, 2, 2, 2));
}

#[test]
fn rectangle_within_is_exact_at_the_edge_of_the_grid() {
    let c = Rectangle::new(u64::MAX - 1, 0, 1, 1);
    // The sum of origin and width leaves the range of u64 and is still compared rightly.
    assert!(!rectangle_within(&c, u64::MAX, 0, 2, 1));
    assert!(rectangle_within(&c, u64::MAX - 1, 0, 1, 1));
    let wide = Rectangle::new(u64::MAX, 0, u64::MAX, 1);
    assert!(rectangle_within(&wide, u64::MAX, 0, u64::MAX, 1));
    assert!(!rectangle_within(&c, 0, 0, 1, 1));
}

#[test]
fn rectangles_sharing_an_edge_are_adjacent() {
    let a = Rectangle::new(0, 0, 10, 10);
    let b = Rectangle::new(10, 0, 10, 10);
    let below = Rectangle::new(0, 10, 10, 10);
    assert!(rectangles_adjacent(&a, &b));
    assert!(rectangles_adjacent(&a, &below));
}

#[test]
fn rectangles_sharing_part_of_an_edge_are_adjacent() {
    let a = Rectangle::new(0, 0, 10, 10);
    let b = Rectangle::new(10, 5, 3, 20);
    assert!(rectangles_adjacent(&a, &b));
}

#[test]
fn rectangles_sharing_a_corner_are_adjacent() {
    let a = Rectangle::new(0, 0, 10, 10);
    let b = Rectangle::new(10, 10, 5, 5);
    assert!(rectangles_adjacent(&a, &b));
}

#[test]
fn separated_rectangles_are_not_adjacent() {
    let a = Rectangle::new(0, 0, 10, 10);
    let gap = Rectangle::new(11, 0, 10, 10);
    let lined_up_far_below = Rectangle::new(10, 11, 5, 5);
    assert!(!rectangles_adjacent(&a, &gap));
    assert!(!rectangles_adjacent(&a, &lined_up_far_below));
}

#[test]
fn overlapping_rectangles_are_not_adjacent() {
    let a = Rectangle::new(0, 0, 10, 10);
    let b = Rectangle::new(5, 5, 10, 10);
    assert!(!rectangles_adjacent(&a, &b));
    assert!(!rectangles_adjacent(&a, &a));
}

#[test]
fn adjacency_is_symmetric_on_samples() {
    let samples = [
        Rectangle::new(0, 0, 10, 10),
        Rectangle::new(10, 0, 10, 10),
        Rectangle::new(10, 10, 5, 5),
        Rectangle::new(3, 10, 2, 7),
        Rectangle::new(40, 40, 1, 1),
        Rectangle::new(0, 0, 0, 0),
        Rectangle::new(u64::MAX, u64::MAX, u64::MAX, u64::MAX),
    ];
    for a in samples.iter() {
        for b in samples.iter() {
            assert_eq!(rectangles_adjacent(a, b), rectangles_adjacent(b, a));
        }
    }
}

#[test]
fn merged_bounds_cover_both() {
    let a = Rectangle::new(0, 0, 10, 10);
    let b = Rectangle::new(10, 0, 10, 10);
    assert_eq!(merged_bounds(&a, &b), Ok(Rectangle::new(0, 0, 20, 10)));
    assert_eq!(merged_bounds(&b, &a), Ok(Rectangle::new(0, 0, 20, 10)));
    let c = Rectangle::new(4, 12, 3, 30);
    assert_eq!(merged_bounds(&a, &c), Ok(Rectangle::new(0, 0, 10, 42)));
}

#[test]
fn merged_bounds_of_an_l_shape_hold_more_than_both() {
    let a = Rectangle::new(0, 0, 10, 2);
    let b = Rectangle::new(0, 2, 2, 8);
    let m = merged_bounds(&a, &b).unwrap();
    assert_eq!(m, Rectangle::new(0, 0, 10, 10));
    assert!(rectangles_adjacent(&a, &b));
    assert!(m.width * m.height > a.width * a.height + b.width * b.height);
}

#[test]
fn merged_bounds_fail_beyond_the_grid() {
    let a = Rectangle::new(u64::MAX, 0, 1, 1);
    let b = Rectangle::new(0, 0, 1, 1);
    assert_eq!(merged_bounds(&a, &b), Err(LandError::CalculationError));
    assert_eq!(merged_bounds(&b, &a), Err(LandError::CalculationError));
    let edge = Rectangle::new(u64::MAX - 1, 0, 1, 1);
    assert_eq!(merged_bounds(&edge, &b), Ok(Rectangle::new(0, 0, u64::MAX, 1)));
}
