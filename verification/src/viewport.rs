//! The rectangular region of interest of a comparison.
//!
//! A caller describes the region as `[x, y, width, height]`. Before a scan
//! it is brought into the inclusive form `[x0, y0, x1, y1]`, with
//! `x1 = x + width - 1` and `y1 = y + height - 1`, which the two predicates
//! of the scan work on.

use vstd::prelude::*;

verus! {

/// Whether the rectangle `[x, y, width, height]` has at least one pixel and
/// lies inside an image of the given size. No rectangle stands for the whole
/// image and is always in order.
pub open spec fn viewport_valid(view_port: Option<[u32; 4]>, width: int, height: int) -> bool {
    match view_port {
        Some(rect) => {
            &&& rect[2] >= 1
            &&& rect[3] >= 1
            &&& rect[0] + rect[2] <= width
            &&& rect[1] + rect[3] <= height
        },
        None => true,
    }
}

/// Whether the coordinate `(x, y)` belongs to the region that `view_port`
/// describes: the rectangle `[x, y, width, height]`, or every coordinate
/// where there is no rectangle.
pub open spec fn in_region(view_port: Option<[u32; 4]>, x: int, y: int) -> bool {
    match view_port {
        Some(rect) => {
            &&& rect[0] <= x < rect[0] + rect[2]
            &&& rect[1] <= y < rect[1] + rect[3]
        },
        None => true,
    }
}

/// The inclusive bounds `[x0, y0, x1, y1]` of the region that `view_port`
/// selects in an image of the given size. There are none when the rectangle
/// is not valid for the image, or when the image has no pixel at all.
pub open spec fn inclusive_bounds(view_port: Option<[u32; 4]>, width: int, height: int) -> Option<
    Seq<u32>,
> {
    match view_port {
        Some(rect) => if viewport_valid(view_port, width, height) {
            Some(
                seq![
                    rect[0],
                    rect[1],
                    (rect[0] + rect[2] - 1) as u32,
                    (rect[1] + rect[3] - 1) as u32,
                ],
            )
        } else {
            None
        },
        None => if width >= 1 && height >= 1 {
            Some(seq![0u32, 0u32, (width - 1) as u32, (height - 1) as u32])
        } else {
            None
        },
    }
}

/// Whether the coordinate `(x, y)` lies inside the inclusive bounds
/// `[x0, y0, x1, y1]`.
pub open spec fn within_bounds(x: int, y: int, bounds: Seq<u32>) -> bool {
    &&& bounds[0] <= x <= bounds[2]
    &&& bounds[1] <= y <= bounds[3]
}

/// Whether row `y` lies below the last row of the inclusive bounds
/// `[x0, y0, x1, y1]`.
pub open spec fn past_bounds(y: int, bounds: Seq<u32>) -> bool {
    y > bounds[3]
}

/// Whether the coordinate `(x2, y2)` comes at or after `(x1, y1)` in a scan
/// that goes row by row, and along each row by rising column.
pub open spec fn scanned_from(x1: int, y1: int, x2: int, y2: int) -> bool {
    y2 > y1 || (y2 == y1 && x2 >= x1)
}

/// Brings the region that `view_port` selects in an image of the given size
/// into its inclusive form.
pub fn normalise_viewport(view_port: Option<[u32; 4]>, width: u32, height: u32) -> (bounds: Option<
    [u32; 4],
>)
    ensures
        match bounds {
            Some(b) => inclusive_bounds(view_port, width as int, height as int) == Some(b@),
            None => inclusive_bounds(view_port, width as int, height as int) is None,
        },
{
    match view_port {
        Some(rect) => {
            if rect[2] >= 1 && rect[3] >= 1 && rect[2] <= width && rect[0] <= width - rect[2]
                && rect[3] <= height && rect[1] <= height - rect[3] {
                let b: [u32; 4] = [rect[0], rect[1], rect[0] + (rect[2] - 1), rect[1] + (rect[3] - 1)];
                assert(b@ =~= inclusive_bounds(view_port, width as int, height as int).unwrap());
                Some(b)
            } else {
                None
            }
        },
        None => {
            if width >= 1 && height >= 1 {
                let b: [u32; 4] = [0, 0, width - 1, height - 1];
                assert(b@ =~= inclusive_bounds(view_port, width as int, height as int).unwrap());
                Some(b)
            } else {
                None
            }
        },
    }
}

/// Tells whether `(x, y)` belongs to the region with the inclusive bounds
/// `view_port = [x0, y0, x1, y1]`.
pub fn is_within_viewport(x: u32, y: u32, view_port: [u32; 4]) -> (inside: bool)
    ensures
        inside == within_bounds(x as int, y as int, view_port@),
{
    x >= view_port[0] && x <= view_port[2] && y >= view_port[1] && y <= view_port[3]
}

/// Tells whether a scan that has reached `(x, y)` has left the region with
/// the inclusive bounds `view_port = [x0, y0, x1, y1]` behind for good. This
/// is so once the row lies below the last row of the region, whatever the
/// column.
#[allow(unused_variables)]
pub fn is_past_viewport(x: u32, y: u32, view_port: [u32; 4]) -> (past: bool)
    ensures
        past == past_bounds(y as int, view_port@),
{
    y > view_port[3]
}

/// Once a scan is past the region, no coordinate that it has yet to visit
/// belongs to the region.
pub proof fn lemma_nothing_within_once_past(x1: int, y1: int, x2: int, y2: int, bounds: Seq<u32>)
    requires
        bounds.len() == 4,
        past_bounds(y1, bounds),
        scanned_from(x1, y1, x2, y2),
    ensures
        !within_bounds(x2, y2, bounds),
{
}

/// The inclusive bounds hold exactly the coordinates of the image that the
/// configured region selects.
pub proof fn lemma_bounds_select_region(
    view_port: Option<[u32; 4]>,
    width: int,
    height: int,
    x: int,
    y: int,
)
    requires
        0 <= x < width <= u32::MAX,
        0 <= y < height <= u32::MAX,
        viewport_valid(view_port, width, height),
    ensures
        inclusive_bounds(view_port, width, height) is Some,
        within_bounds(x, y, inclusive_bounds(view_port, width, height).unwrap()) == in_region(
            view_port,
            x,
            y,
        ),
{
}

} // verus!
