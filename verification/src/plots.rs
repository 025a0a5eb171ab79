//! Questions about a plot's rectangle, and the cut that a split makes.

use crate::error::LandError;
use crate::geometry::{
    bounding_box,
    merged_bounds,
    rectangle_within,
    rectangles_adjacent,
    Rectangle,
};
use crate::state::{CountryState, LandPlot};
use vstd::prelude::*;

verus! {

/// `part` is a strip along the left edge of `whole`: it starts at the
/// origin of `whole`, is as high, and is narrower.
pub open spec fn is_left_strip(whole: Rectangle, part: Rectangle) -> bool {
    &&& part.has_area()
    &&& part.x == whole.x
    &&& part.y == whole.y
    &&& part.height == whole.height
    &&& part.width < whole.width
}

/// `part` is a strip along the top edge of `whole`: it starts at the origin
/// of `whole`, is as wide, and is lower.
pub open spec fn is_top_strip(whole: Rectangle, part: Rectangle) -> bool {
    &&& part.has_area()
    &&& part.x == whole.x
    &&& part.y == whole.y
    &&& part.width == whole.width
    &&& part.height < whole.height
}

/// A cut is aligned with an edge when what it leaves of the plot is again a
/// rectangle that starts where the cut ends: a strip along the left edge,
/// or a strip along the top edge.
pub open spec fn is_edge_aligned(whole: Rectangle, part: Rectangle) -> bool {
    is_left_strip(whole, part) || is_top_strip(whole, part)
}

/// What is left of `whole` when the edge-aligned `part` is cut off.
pub open spec fn remainder_after(whole: Rectangle, part: Rectangle) -> Rectangle {
    if is_left_strip(whole, part) {
        Rectangle {
            x: (whole.x + part.width) as u64,
            width: (whole.width - part.width) as u64,
            ..whole
        }
    } else {
        Rectangle {
            y: (whole.y + part.height) as u64,
            height: (whole.height - part.height) as u64,
            ..whole
        }
    }
}

/// Whether the rectangle has area and lies inside the country.
pub fn is_valid_plot(country: &CountryState, start_x: u64, start_y: u64, width: u64, height: u64) -> (valid:
    Result<bool, LandError>)
    ensures
        valid == Ok::<bool, LandError>(
            {
                let asked = Rectangle { x: start_x, y: start_y, width, height };
                country.bounds().contains_rect(asked) && asked.has_area()
            },
        ),
{
    let bounds = Rectangle { x: 0, y: 0, width: country.width, height: country.height };
    Ok(rectangle_within(&bounds, start_x, start_y, width, height) && width > 0 && height > 0)
}

/// Whether the rectangle `(x, y, width, height)` lies inside the plot.
pub fn is_within_plot(plot: &LandPlot, x: u64, y: u64, width: u64, height: u64) -> (inside: Result<
    bool,
    LandError,
>)
    ensures
        inside == Ok::<bool, LandError>(plot.rect().contains_rect(Rectangle { x, y, width, height })),
{
    let whole = plot.rectangle();
    Ok(rectangle_within(&whole, x, y, width, height))
}

/// Whether the two plots touch along an edge or at a corner.
pub fn are_plots_adjacent(plot_a: &LandPlot, plot_b: &LandPlot) -> (touching: Result<bool, LandError>)
    ensures
        touching == Ok::<bool, LandError>(plot_a.rect().adjacent(plot_b.rect())),
{
    let a = plot_a.rectangle();
    let b = plot_b.rectangle();
    Ok(rectangles_adjacent(&a, &b))
}

/// The smallest rectangle that covers both plots, as origin and extent
/// `(x, y, width, height)`.
///
/// Fails where a far edge of either plot is no coordinate of the grid.
pub fn calculate_merged_dimensions(plot_a: &LandPlot, plot_b: &LandPlot) -> (merged: Result<
    (u64, u64, u64, u64),
    LandError,
>)
    ensures
        ({
            let a = plot_a.rect();
            let b = plot_b.rect();
            let whole = bounding_box(a, b);
            &&& a.in_range() && b.in_range() ==> merged == Ok::<(u64, u64, u64, u64), LandError>(
                (whole.x, whole.y, whole.width, whole.height),
            )
            &&& !(a.in_range() && b.in_range()) ==> merged == Err::<
                (u64, u64, u64, u64),
                LandError,
            >(LandError::CalculationError)
        }),
{
    let a = plot_a.rectangle();
    let b = plot_b.rectangle();
    match merged_bounds(&a, &b) {
        Ok(r) => Ok((r.x, r.y, r.width, r.height)),
        Err(e) => Err(e),
    }
}

/// Shrinks the plot by the rectangle `(split_x, split_y, width, height)`
/// that was cut out of it.
///
/// A strip along the left edge moves the plot's origin right by the strip's
/// width; a strip along the top edge moves it down by the strip's height.
/// Any other cut would leave something that is no rectangle, and is refused
/// with `NonContiguousPlot`. Only the origin and the extent change.
pub fn update_original_plot_after_split(
    plot: &mut LandPlot,
    split_x: u64,
    split_y: u64,
    width: u64,
    height: u64,
) -> (done: Result<(), LandError>)
    ensures
        ({
            let whole = old(plot).rect();
            let part = Rectangle { x: split_x, y: split_y, width, height };
            &&& !is_edge_aligned(whole, part) ==> done == Err::<(), LandError>(
                LandError::NonContiguousPlot,
            )
            &&& is_edge_aligned(whole, part) && !whole.in_range() ==> done == Err::<(), LandError>(
                LandError::CalculationError,
            )
            &&& is_edge_aligned(whole, part) && whole.in_range() ==> done is Ok
            &&& done is Ok ==> final(plot).rect() == remainder_after(whole, part)
            &&& done is Err ==> final(plot).rect() == whole
        }),
        final(plot).id == old(plot).id,
        final(plot).owner == old(plot).owner,
        final(plot).is_listed == old(plot).is_listed,
        final(plot).price_per_unit == old(plot).price_per_unit,
        final(plot).timestamp == old(plot).timestamp,
        final(plot).neighbors == old(plot).neighbors,
        final(plot).region_id == old(plot).region_id,
{
    if split_x != plot.start_x || split_y != plot.start_y || width == 0 || height == 0 {
        return Err(LandError::NonContiguousPlot);
    }
    let fits = plot.start_x.checked_add(plot.width).is_some() && plot.start_y.checked_add(
        plot.height,
    ).is_some();
    if height == plot.height && width < plot.width {
        if !fits {
            return Err(LandError::CalculationError);
        }
        plot.start_x = plot.start_x + width;
        plot.width = plot.width - width;
        Ok(())
    } else if width == plot.width && height < plot.height {
        if !fits {
            return Err(LandError::CalculationError);
        }
        plot.start_y = plot.start_y + height;
        plot.height = plot.height - height;
        Ok(())
    } else {
        Err(LandError::NonContiguousPlot)
    }
}

/// An edge-aligned cut and what it leaves tile the plot: together they
/// cover it, and they share no cell.
pub proof fn lemma_cut_tiles(whole: Rectangle, part: Rectangle)
    requires
        is_edge_aligned(whole, part),
        whole.in_range(),
    ensures
        whole.is_tiled_by(part, remainder_after(whole, part)),
        whole.contains_rect(part),
        whole.contains_rect(remainder_after(whole, part)),
        remainder_after(whole, part).has_area(),
        remainder_after(whole, part).in_range(),
        whole.is_bounding_box_of(part, remainder_after(whole, part)),
        part.adjacent(remainder_after(whole, part)),
{
}

} // verus!
