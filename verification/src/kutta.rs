//! Choice of the two panels on which the Kutta condition is imposed.
//!
//! The condition equates the tangential speeds on one panel of the upper
//! surface and one of the lower surface, both next to the trailing edge.
//! Which panels those are is not read off the loop order, since the panels
//! that close a blunt trailing edge lie between them. Panels that are nearly
//! vertical or degenerate are left out; the rest are split by the sign of
//! their tangent; of the six of each group that lie nearest the trailing
//! edge, the longest is taken.

use vstd::prelude::*;
use crate::single::Single;

verus! {

/// A panel whose tangent has a chordwise part smaller than this in
/// magnitude closes the trailing edge and is no candidate: 0.2.
pub const MIN_TANGENT_X_BITS: u32 = 0x3e4c_cccd;

/// A panel shorter than this is no candidate: 1e-6.
pub const MIN_LENGTH_BITS: u32 = 0x3586_37bd;

/// How many candidates of a group, counted from the trailing edge, the
/// longest is picked from.
pub const NEAR_TE_CANDIDATES: usize = 6;

/// What the choice reads of a panel.
#[derive(Clone, Copy, Debug, PartialEq, Eq, Structural)]
pub struct PanelShape {
    /// Chordwise part of the unit tangent.
    pub tangent_x: Single,
    /// Chordwise position of the midpoint.
    pub mid_x: Single,
    pub length: Single,
}

/// The group of a candidate: panels whose tangent points downstream are
/// upper, those whose tangent points upstream are lower.
#[derive(Clone, Copy, Debug, PartialEq, Eq, Structural)]
pub enum Side {
    Upper,
    Lower,
}

/// The group that a panel is a candidate of, if it is one.
pub open spec fn side_of(p: PanelShape) -> Option<Side> {
    if p.length.less(Single { bits: MIN_LENGTH_BITS }) {
        None
    } else if p.tangent_x.abs_spec().less(Single { bits: MIN_TANGENT_X_BITS }) {
        None
    } else if (Single { bits: 0 }).less(p.tangent_x) {
        Some(Side::Upper)
    } else if p.tangent_x.less(Single { bits: 0 }) {
        Some(Side::Lower)
    } else {
        None
    }
}

pub open spec fn is_candidate(panels: Seq<PanelShape>, side: Side, j: int) -> bool {
    0 <= j < panels.len() && side_of(panels[j]) == Some(side)
}

/// Whether there is a candidate of a group at all.
pub open spec fn has_candidate(panels: Seq<PanelShape>, side: Side) -> bool {
    exists|j: int| is_candidate(panels, side, j)
}

/// Whether panel `a` comes before panel `b` when the panels are put in order
/// from the trailing edge: by chordwise midpoint, larger first, in the IEEE
/// 754 total order; of two equal midpoints the panel earlier in the loop
/// comes first.
pub open spec fn ahead(panels: Seq<PanelShape>, a: int, b: int) -> bool {
    let ma = panels[a].mid_x.total_rank();
    let mb = panels[b].mid_x.total_rank();
    ma > mb || (ma == mb && a < b)
}

/// The number of candidates of a group among the panels `0..n` that come
/// before panel `c`.
pub open spec fn count_ahead(panels: Seq<PanelShape>, side: Side, c: int, n: int) -> nat
    decreases n,
{
    if n <= 0 {
        0
    } else {
        count_ahead(panels, side, c, n - 1) + if is_candidate(panels, side, n - 1) && ahead(
            panels,
            n - 1,
            c,
        ) {
            1nat
        } else {
            0nat
        }
    }
}

/// Whether panel `c` is one of the six candidates of its group nearest the
/// trailing edge.
pub open spec fn near_te(panels: Seq<PanelShape>, side: Side, c: int) -> bool {
    is_candidate(panels, side, c) && count_ahead(panels, side, c, panels.len() as int)
        < NEAR_TE_CANDIDATES
}

/// Whether panel `a` is preferred to panel `b`: the longer one is, in the
/// IEEE 754 total order; of two of equal length the one farther from the
/// trailing edge is.
pub open spec fn beats(panels: Seq<PanelShape>, a: int, b: int) -> bool {
    let la = panels[a].length.total_rank();
    let lb = panels[b].length.total_rank();
    la > lb || (la == lb && ahead(panels, b, a))
}

/// Whether panel `p` is the one picked for a group: it is near the trailing
/// edge and preferred to every other candidate that is.
pub open spec fn is_pick(panels: Seq<PanelShape>, side: Side, p: int) -> bool {
    &&& near_te(panels, side, p)
    &&& forall|q: int| #[trigger] near_te(panels, side, q) && q != p ==> beats(panels, p, q)
}

/// The panels taken where a group has no candidate: the last but one of the
/// loop for the upper surface and the first for the lower.
pub open spec fn fallback_indices(n: int) -> (int, int) {
    (if n >= 2 { n - 2 } else { 0 }, 0)
}

/// The group that a panel is a candidate of.
pub fn panel_side(p: &PanelShape) -> (r: Option<Side>)
    ensures
        r == side_of(*p),
{
    let zero = Single { bits: 0 };
    if p.length.lt(Single { bits: MIN_LENGTH_BITS }) {
        None
    } else if p.tangent_x.abs().lt(Single { bits: MIN_TANGENT_X_BITS }) {
        None
    } else if zero.lt(p.tangent_x) {
        Some(Side::Upper)
    } else if p.tangent_x.lt(zero) {
        Some(Side::Lower)
    } else {
        None
    }
}

fn on_side(p: &PanelShape, side: Side) -> (r: bool)
    ensures
        r == (side_of(*p) == Some(side)),
{
    match panel_side(p) {
        Some(s) => s == side,
        None => false,
    }
}

fn comes_ahead(panels: &Vec<PanelShape>, a: usize, b: usize) -> (r: bool)
    requires
        a < panels.len(),
        b < panels.len(),
    ensures
        r == ahead(panels@, a as int, b as int),
{
    let ma: i64 = panels[a].mid_x.total_key();
    let mb: i64 = panels[b].mid_x.total_key();
    ma > mb || (ma == mb && a < b)
}

fn is_preferred(panels: &Vec<PanelShape>, a: usize, b: usize) -> (r: bool)
    requires
        a < panels.len(),
        b < panels.len(),
    ensures
        r == beats(panels@, a as int, b as int),
{
    let la: i64 = panels[a].length.total_key();
    let lb: i64 = panels[b].length.total_key();
    la > lb || (la == lb && comes_ahead(panels, b, a))
}

fn candidates_ahead(panels: &Vec<PanelShape>, side: Side, c: usize) -> (count: usize)
    requires
        c < panels.len(),
    ensures
        count == count_ahead(panels@, side, c as int, panels.len() as int),
{
    let n: usize = panels.len();
    let mut count: usize = 0;
    let mut j: usize = 0;
    while j < n
        invariant
            n == panels.len(),
            c < n,
            j <= n,
            count <= j,
            count == count_ahead(panels@, side, c as int, j as int),
        decreases n - j,
    {
        if on_side(&panels[j], side) && comes_ahead(panels, j, c) {
            count = count + 1;
        }
        j = j + 1;
    }
    count
}

/// With no candidate before it, a panel has a count of zero.
proof fn lemma_count_zero(panels: Seq<PanelShape>, side: Side, f: int, n: int)
    requires
        0 <= n <= panels.len(),
        forall|j: int| 0 <= j < n && is_candidate(panels, side, j) ==> !ahead(panels, j, f),
    ensures
        count_ahead(panels, side, f, n) == 0,
    decreases n,
{
    if n > 0 {
        lemma_count_zero(panels, side, f, n - 1);
    }
}

/// Among the panels `0..m`, if any is a candidate, one candidate comes
/// before all the others.
proof fn lemma_front(panels: Seq<PanelShape>, side: Side, m: int) -> (f: int)
    requires
        0 <= m <= panels.len(),
        exists|j: int| 0 <= j < m && is_candidate(panels, side, j),
    ensures
        0 <= f < m,
        is_candidate(panels, side, f),
        forall|j: int| 0 <= j < m && is_candidate(panels, side, j) && j != f ==> ahead(panels, f, j),
    decreases m,
{
    if exists|j: int| 0 <= j < m - 1 && is_candidate(panels, side, j) {
        let g = lemma_front(panels, side, m - 1);
        if is_candidate(panels, side, m - 1) && ahead(panels, m - 1, g) {
            m - 1
        } else {
            g
        }
    } else {
        m - 1
    }
}

/// A group with a candidate has a candidate near the trailing edge.
proof fn lemma_some_near_te(panels: Seq<PanelShape>, side: Side) -> (f: int)
    requires
        has_candidate(panels, side),
    ensures
        near_te(panels, side, f),
{
    let j = choose|j: int| is_candidate(panels, side, j);
    assert(0 <= j < panels.len() && is_candidate(panels, side, j));
    let f = lemma_front(panels, side, panels.len() as int);
    lemma_count_zero(panels, side, f, panels.len() as int);
    f
}

/// The panel picked for one group, or `None` where the group has no
/// candidate.
pub fn pick_side(panels: &Vec<PanelShape>, side: Side) -> (r: Option<usize>)
    ensures
        match r {
            Some(p) => is_pick(panels@, side, p as int),
            None => !has_candidate(panels@, side),
        },
{
    let n: usize = panels.len();
    let mut best: Option<usize> = None;
    let mut c: usize = 0;
    while c < n
        invariant
            n == panels.len(),
            c <= n,
            match best {
                Some(b) => b < c && near_te(panels@, side, b as int) && forall|q: int|
                    0 <= q < c && #[trigger] near_te(panels@, side, q) && q != b ==> beats(
                        panels@,
                        b as int,
                        q,
                    ),
                None => forall|q: int| 0 <= q < c ==> !#[trigger] near_te(panels@, side, q),
            },
        decreases n - c,
    {
        if on_side(&panels[c], side) {
            let count: usize = candidates_ahead(panels, side, c);
            if count < NEAR_TE_CANDIDATES {
                match best {
                    None => {
                        best = Some(c);
                    },
                    Some(b) => {
                        if is_preferred(panels, c, b) {
                            best = Some(c);
                        }
                    },
                }
            }
        }
        c = c + 1;
    }
    proof {
        if best is None && has_candidate(panels@, side) {
            let f = lemma_some_near_te(panels@, side);
            assert(0 <= f < n && near_te(panels@, side, f));
        }
    }
    best
}

/// The panels that carry the Kutta condition, as `(upper, lower)`: the pick
/// of each group where both groups have a candidate, else the last panel but
/// one and the first.
pub fn kutta_te_panel_indices(panels: &Vec<PanelShape>) -> (r: (usize, usize))
    ensures
        has_candidate(panels@, Side::Upper) && has_candidate(panels@, Side::Lower) ==> is_pick(
            panels@,
            Side::Upper,
            r.0 as int,
        ) && is_pick(panels@, Side::Lower, r.1 as int),
        !(has_candidate(panels@, Side::Upper) && has_candidate(panels@, Side::Lower)) ==> (
        r.0 as int,
        r.1 as int,
        ) == fallback_indices(panels.len() as int),
        panels.len() > 0 ==> r.0 < panels.len() && r.1 < panels.len(),
{
    let upper = pick_side(panels, Side::Upper);
    let lower = pick_side(panels, Side::Lower);
    match (upper, lower) {
        (Some(u), Some(l)) => (u, l),
        _ => {
            let n: usize = panels.len();
            (if n >= 2 { n - 2 } else { 0 }, 0)
        },
    }
}

/// A group has one pick and no other.
pub proof fn lemma_pick_unique(panels: Seq<PanelShape>, side: Side, one: int, other: int)
    requires
        is_pick(panels, side, one),
        is_pick(panels, side, other),
    ensures
        one == other,
{
    if one != other {
        assert(beats(panels, one, other));
        assert(beats(panels, other, one));
    }
}

} // verus!
