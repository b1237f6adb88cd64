//! The order of the points of a section's surface loop.
//!
//! Both surfaces are sampled at the same stations, from the leading edge to
//! the trailing edge. The loop starts at the trailing edge of the lower
//! surface, runs forward to the leading edge, back along the upper surface
//! to its trailing edge, over the points of the trailing-edge cap (if there
//! is one), and ends where it began. The panel builder relies on that order.
//! The points themselves are the caller's: this module never looks into one.

use vstd::prelude::*;
use crate::single::Single;

verus! {

/// The smallest number of stations a surface is sampled at.
pub const MIN_STATIONS: usize = 32;

/// The smallest number of chordwise stations the pressure is sampled at.
pub const MIN_SAMPLES: usize = 32;

/// The number of panels that close a blunt trailing edge.
pub const TE_PANELS: usize = 8;

/// A trailing-edge gap up to this length gets no cap: 1e-8.
pub const TE_GAP_BITS: u32 = 0x322b_cc77;

/// The smallest length a panel is given: 1e-6.
pub const MIN_PANEL_LENGTH_BITS: u32 = 0x3586_37bd;

/// The sense in which a loop runs round the section.
#[derive(Clone, Copy, Debug, PartialEq, Eq, Structural)]
pub enum Winding {
    CounterClockwise,
    Clockwise,
}

/// The closed loop over two surfaces given from leading to trailing edge.
/// With either surface empty there is no loop.
pub open spec fn closed_loop_spec<T>(lower: Seq<T>, upper: Seq<T>, cap: Seq<T>) -> Seq<T> {
    if lower.len() == 0 || upper.len() == 0 {
        Seq::empty()
    } else {
        lower.reverse() + upper.skip(1) + cap + seq![lower.last()]
    }
}

/// The number of stations per surface for a requested number of points.
pub fn station_count(num_points: usize) -> (n: usize)
    ensures
        n == if num_points < MIN_STATIONS { MIN_STATIONS } else { num_points },
        n >= num_points,
        n >= 32,
{
    if num_points < MIN_STATIONS {
        MIN_STATIONS
    } else {
        num_points
    }
}

/// The number of chordwise pressure samples for a requested number of
/// points: half of it, and at least 32.
pub fn sample_count(num_points: usize) -> (n: usize)
    ensures
        n == if num_points / 2 < MIN_SAMPLES { MIN_SAMPLES as int } else { num_points as int / 2 },
        n >= 32,
{
    let half: usize = num_points / 2;
    if half < MIN_SAMPLES {
        MIN_SAMPLES
    } else {
        half
    }
}

/// The number of panels on a loop of points: one between each two points
/// that follow one another.
pub fn panel_count(point_count: usize) -> (n: usize)
    ensures
        n == if point_count == 0 { 0 } else { point_count as int - 1 },
{
    if point_count == 0 {
        0
    } else {
        point_count - 1
    }
}

/// The length of a panel: the distance between its two points, and 1e-6
/// where that is smaller or not a number, so that a panel between two
/// points that coincide still has a tangent.
pub fn floor_panel_length(distance: Single) -> (r: Single)
    ensures
        r == distance.at_least_spec(Single { bits: MIN_PANEL_LENGTH_BITS }),
        (Single { bits: MIN_PANEL_LENGTH_BITS }).less_eq(r),
        (Single { bits: 0 }).less(r),
{
    distance.at_least(Single { bits: MIN_PANEL_LENGTH_BITS })
}

/// The number of points on the trailing-edge cap: one between each two of
/// its panels where the gap between the two surfaces is longer than 1e-8,
/// none where it is not (or is not a number).
pub fn cap_point_count(gap_len: Single) -> (n: usize)
    ensures
        n == if (Single { bits: TE_GAP_BITS }).less(gap_len) { TE_PANELS - 1 } else { 0 },
{
    if (Single { bits: TE_GAP_BITS }).lt(gap_len) {
        TE_PANELS - 1
    } else {
        0
    }
}

/// The sense of a loop with the given signed area: counter-clockwise for an
/// area of zero or more. Outward normals point to the right of the direction
/// of travel on a counter-clockwise loop and to the left on a clockwise one.
pub fn winding_of(signed_area: Single) -> (w: Winding)
    ensures
        w == if (Single { bits: 0 }).less_eq(signed_area) {
            Winding::CounterClockwise
        } else {
            Winding::Clockwise
        },
{
    if (Single { bits: 0 }).le(signed_area) {
        Winding::CounterClockwise
    } else {
        Winding::Clockwise
    }
}

/// Puts the points of the two surfaces and of the cap into loop order. With
/// an empty cap the loop closes on a sharp trailing edge: its last point
/// repeats its first.
pub fn close_surface_loop<T: Copy>(lower: &Vec<T>, upper: &Vec<T>, cap: &Vec<T>) -> (full: Vec<T>)
    ensures
        full@ == closed_loop_spec(lower@, upper@, cap@),
        lower.len() > 0 && upper.len() > 0 ==> full.len() == lower.len() + upper.len() + cap.len(),
        full.len() > 0 ==> full[0] == full[full.len() - 1],
{
    let mut full: Vec<T> = Vec::new();
    if lower.len() == 0 || upper.len() == 0 {
        return full;
    }
    let n: usize = lower.len();
    let mut i: usize = n;
    while i > 0
        invariant
            n == lower.len(),
            i <= n,
            full.len() == n - i,
            forall|j: int| 0 <= j < full.len() ==> #[trigger] full[j] == lower[n - 1 - j],
        decreases i,
    {
        i = i - 1;
        full.push(lower[i]);
    }
    assert(full@ =~= lower@.reverse());
    let mut k: usize = 1;
    while k < upper.len()
        invariant
            1 <= k <= upper.len(),
            full@ == lower@.reverse() + upper@.subrange(1, k as int),
        decreases upper.len() - k,
    {
        full.push(upper[k]);
        assert(upper@.subrange(1, k as int).push(upper[k as int]) =~= upper@.subrange(
            1,
            k as int + 1,
        ));
        k = k + 1;
    }
    assert(upper@.subrange(1, upper.len() as int) =~= upper@.skip(1));
    let mut c: usize = 0;
    while c < cap.len()
        invariant
            c <= cap.len(),
            full@ == lower@.reverse() + upper@.skip(1) + cap@.take(c as int),
        decreases cap.len() - c,
    {
        full.push(cap[c]);
        assert(cap@.take(c as int).push(cap[c as int]) =~= cap@.take(c as int + 1));
        c = c + 1;
    }
    assert(cap@.take(cap.len() as int) =~= cap@);
    full.push(lower[n - 1]);
    assert(full@ =~= closed_loop_spec(lower@, upper@, cap@));
    full
}

} // verus!
