//! The rules of the boundary-layer march: where the layer separates, where it
//! turns turbulent, and which skin-friction law each segment of a surface
//! falls under.
//!
//! The march walks one surface from its first sample on. Its numbers
//! (momentum thickness, pressure-gradient parameter, Reynolds numbers) do not
//! depend on what was decided earlier, so the caller computes them for every
//! station first. The decisions are taken here.

use vstd::prelude::*;
use crate::single::Single;

verus! {

/// Separation needs a pressure-gradient parameter below this: -0.09.
pub const SEPARATION_LAMBDA_BITS: u32 = 0xbdb8_51ec;

/// Separation is not looked for up to this arc length: 0.02.
pub const SEPARATION_GUARD_BITS: u32 = 0x3ca3_d70a;

/// A separation behind this chordwise position counts as a stall: 0.2.
pub const STALL_FROM_BITS: u32 = 0x3e4c_cccd;

/// A separation before this chordwise position counts as a stall: 0.95.
pub const STALL_UNTIL_BITS: u32 = 0x3f73_3333;

/// The smallest Reynolds number the estimate works with: 1000.
pub const MIN_REYNOLDS_BITS: u32 = 0x447a_0000;

/// The first place a transition may be forced at: 0.001.
pub const TRIP_FROM_BITS: u32 = 0x3a83_126f;

/// The last place a transition may be forced at: 0.99.
pub const TRIP_UNTIL_BITS: u32 = 0x3f7d_70a4;

/// The skin-friction law of one segment.
#[derive(Clone, Copy, Debug, PartialEq, Eq, Structural)]
pub enum Regime {
    Laminar,
    Turbulent,
    /// Past separation: no skin friction is counted.
    Separated,
}

/// What the march has computed at the far end of one segment.
#[derive(Clone, Copy, Debug, PartialEq, Eq, Structural)]
pub struct Station {
    /// Arc length from the first sample.
    pub s: Single,
    /// Chordwise position.
    pub x: Single,
    /// Arc length at the middle of the segment that ends here.
    pub s_mid: Single,
    /// Pressure-gradient parameter.
    pub lambda: Single,
    /// Reynolds number on the momentum thickness.
    pub re_theta: Single,
    /// The value of `re_theta` from which the layer is turbulent here.
    pub re_theta_crit: Single,
}

/// A place on a surface: arc length and chordwise position.
#[derive(Clone, Copy, Debug, PartialEq, Eq, Structural)]
pub struct Mark {
    pub s: Single,
    pub x: Single,
}

/// What the march decided for one surface.
#[derive(Debug)]
pub struct SurfaceMarch {
    /// The law of each segment, in station order.
    pub regimes: Vec<Regime>,
    pub transition: Option<Mark>,
    pub separation: Option<Mark>,
    pub probable_stall: bool,
}

/// The estimate for a section: profile drag, and for each surface the
/// chordwise position of transition and of separation, where there is one.
#[derive(Clone, Copy, Debug, PartialEq, Eq, Structural)]
pub struct BoundaryLayerResult {
    /// Never below zero.
    pub cd_profile: Single,
    pub transition_upper: Option<Single>,
    pub transition_lower: Option<Single>,
    pub separation_upper: Option<Single>,
    pub separation_lower: Option<Single>,
    pub probable_stall: bool,
}

/// The chordwise position of a mark, if there is one.
pub open spec fn position_of(mark: Option<Mark>) -> Option<Single> {
    match mark {
        Some(m) => Some(m.x),
        None => None,
    }
}

/// Whether the layer meets the separation criterion at a station.
pub open spec fn separates(st: Station) -> bool {
    st.lambda.less(Single { bits: SEPARATION_LAMBDA_BITS }) && (Single {
        bits: SEPARATION_GUARD_BITS,
    }).less(st.s)
}

/// Whether the layer meets the transition criterion at a station.
pub open spec fn transitions(st: Station) -> bool {
    st.re_theta_crit.less_eq(st.re_theta)
}

/// The first of the stations `0..n` that meets the separation criterion.
pub open spec fn first_separation(stations: Seq<Station>, n: int) -> Option<int>
    decreases n,
{
    if n <= 0 {
        None
    } else {
        match first_separation(stations, n - 1) {
            Some(j) => Some(j),
            None => if separates(stations[n - 1]) {
                Some(n - 1)
            } else {
                None
            },
        }
    }
}

/// The first of the stations `0..n` that meets the transition criterion.
pub open spec fn first_transition(stations: Seq<Station>, n: int) -> Option<int>
    decreases n,
{
    if n <= 0 {
        None
    } else {
        match first_transition(stations, n - 1) {
            Some(j) => Some(j),
            None => if transitions(stations[n - 1]) {
                Some(n - 1)
            } else {
                None
            },
        }
    }
}

/// The place of a station.
pub open spec fn mark_of(st: Station) -> Mark {
    Mark { s: st.s, x: st.x }
}

/// Where the layer has separated, as known after the stations `0..n`.
pub open spec fn separation_mark(stations: Seq<Station>, n: int) -> Option<Mark> {
    match first_separation(stations, n) {
        Some(j) => Some(mark_of(stations[j])),
        None => None,
    }
}

/// Where the layer has turned turbulent, as known after the stations `0..n`:
/// at the forced place where the transition is not free, else at the first
/// station that meets the criterion.
pub open spec fn transition_mark(
    stations: Seq<Station>,
    free_transition: bool,
    forced_x: Single,
    n: int,
) -> Option<Mark> {
    if !free_transition {
        Some(Mark { s: forced_x, x: forced_x })
    } else {
        match first_transition(stations, n) {
            Some(j) => Some(mark_of(stations[j])),
            None => None,
        }
    }
}

/// The law of a segment, given what is known once its far end is reached:
/// none past separation, laminar up to the transition, turbulent after it.
pub open spec fn regime_of(s_mid: Single, transition: Option<Mark>, separation: Option<Mark>) -> Regime {
    let separated = match separation {
        Some(m) => m.s.less_eq(s_mid),
        None => false,
    };
    let laminar = match transition {
        Some(m) => s_mid.less_eq(m.s),
        None => true,
    };
    if separated {
        Regime::Separated
    } else if laminar {
        Regime::Laminar
    } else {
        Regime::Turbulent
    }
}

/// The law of segment `i` of a surface.
pub open spec fn regime_at(
    stations: Seq<Station>,
    free_transition: bool,
    forced_x: Single,
    i: int,
) -> Regime {
    regime_of(
        stations[i].s_mid,
        transition_mark(stations, free_transition, forced_x, i + 1),
        separation_mark(stations, i + 1),
    )
}

/// A separation strictly between 0.2 and 0.95 of the chord is a probable
/// stall.
pub open spec fn stall_spec(separation: Option<Mark>) -> bool {
    match separation {
        Some(m) => (Single { bits: STALL_FROM_BITS }).less(m.x) && m.x.less(
            Single { bits: STALL_UNTIL_BITS },
        ),
        None => false,
    }
}

/// Whether a boundary-layer estimate is made at all: only for viscous flow,
/// and only with at least two samples on each surface.
pub open spec fn estimate_applies_spec(viscous: bool, upper_len: usize, lower_len: usize) -> bool {
    viscous && upper_len >= 2 && lower_len >= 2
}

/// Whether a boundary-layer estimate is made at all.
pub fn estimate_applies(viscous: bool, upper_len: usize, lower_len: usize) -> (r: bool)
    ensures
        r == estimate_applies_spec(viscous, upper_len, lower_len),
{
    viscous && upper_len >= 2 && lower_len >= 2
}

/// The Reynolds number the estimate uses: the one given, raised to 1000 where
/// it is smaller or not a number.
pub fn floor_reynolds(reynolds: Single) -> (r: Single)
    ensures
        r == reynolds.at_least_spec(Single { bits: MIN_REYNOLDS_BITS }),
        (Single { bits: MIN_REYNOLDS_BITS }).less_eq(r),
{
    reynolds.at_least(Single { bits: MIN_REYNOLDS_BITS })
}

/// The place of a forced transition, held between 0.001 and 0.99.
pub fn clamp_trip(forced_x: Single) -> (r: Single)
    ensures
        r == forced_x.clamp_spec(Single { bits: TRIP_FROM_BITS }, Single { bits: TRIP_UNTIL_BITS }),
{
    forced_x.clamp(Single { bits: TRIP_FROM_BITS }, Single { bits: TRIP_UNTIL_BITS })
}

/// Whether the layer meets the separation criterion at a station: a
/// pressure-gradient parameter below -0.09, past an arc length of 0.02.
pub fn station_separates(st: &Station) -> (r: bool)
    ensures
        r == separates(*st),
{
    st.lambda.lt(Single { bits: SEPARATION_LAMBDA_BITS }) && (Single {
        bits: SEPARATION_GUARD_BITS,
    }).lt(st.s)
}

/// Whether the layer meets the transition criterion at a station: a
/// Reynolds number on the momentum thickness of at least the critical one.
pub fn station_transitions(st: &Station) -> (r: bool)
    ensures
        r == transitions(*st),
{
    st.re_theta_crit.le(st.re_theta)
}

/// The law of a segment whose middle lies at arc length `s_mid`, given
/// where the layer has turned turbulent and where it has separated.
pub fn segment_regime(s_mid: Single, transition: Option<Mark>, separation: Option<Mark>) -> (r: Regime)
    ensures
        r == regime_of(s_mid, transition, separation),
{
    let separated = match separation {
        Some(m) => m.s.le(s_mid),
        None => false,
    };
    let laminar = match transition {
        Some(m) => s_mid.le(m.s),
        None => true,
    };
    if separated {
        Regime::Separated
    } else if laminar {
        Regime::Laminar
    } else {
        Regime::Turbulent
    }
}

/// Whether a separation is a probable stall.
pub fn is_probable_stall(separation: Option<Mark>) -> (r: bool)
    ensures
        r == stall_spec(separation),
{
    match separation {
        Some(m) => (Single { bits: STALL_FROM_BITS }).lt(m.x) && m.x.lt(
            Single { bits: STALL_UNTIL_BITS },
        ),
        None => false,
    }
}

/// Puts the marches of the two surfaces together. The profile drag is the
/// sum of the two surfaces' drag, taken as zero where the sum is negative or
/// not a number; a stall on either surface is a stall of the section.
pub fn combine_surfaces(cd_sum: Single, upper: &SurfaceMarch, lower: &SurfaceMarch) -> (r:
    BoundaryLayerResult)
    ensures
        r.cd_profile == cd_sum.at_least_spec(Single { bits: 0 }),
        (Single { bits: 0 }).less_eq(r.cd_profile),
        r.transition_upper == position_of(upper.transition),
        r.transition_lower == position_of(lower.transition),
        r.separation_upper == position_of(upper.separation),
        r.separation_lower == position_of(lower.separation),
        r.probable_stall == (upper.probable_stall || lower.probable_stall),
{
    BoundaryLayerResult {
        cd_profile: cd_sum.at_least(Single { bits: 0 }),
        transition_upper: mark_position(upper.transition),
        transition_lower: mark_position(lower.transition),
        separation_upper: mark_position(upper.separation),
        separation_lower: mark_position(lower.separation),
        probable_stall: upper.probable_stall || lower.probable_stall,
    }
}

fn mark_position(mark: Option<Mark>) -> (r: Option<Single>)
    ensures
        r == position_of(mark),
{
    match mark {
        Some(m) => Some(m.x),
        None => None,
    }
}

/// Walks the stations of one surface in order. Separation and transition
/// are each recorded at the first station that meets the criterion and kept
/// from then on; every segment gets the law that holds once its far end has
/// been looked at.
pub fn classify_segments(stations: &Vec<Station>, free_transition: bool, forced_x: Single) -> (r:
    SurfaceMarch)
    ensures
        r.regimes.len() == stations.len(),
        forall|i: int|
            0 <= i < stations.len() ==> #[trigger] r.regimes[i] == regime_at(
                stations@,
                free_transition,
                forced_x,
                i,
            ),
        r.transition == transition_mark(stations@, free_transition, forced_x, stations.len() as int),
        r.separation == separation_mark(stations@, stations.len() as int),
        r.probable_stall == stall_spec(r.separation),
{
    let mut regimes: Vec<Regime> = Vec::new();
    let mut separation: Option<Mark> = None;
    let mut transition: Option<Mark> = if free_transition {
        None
    } else {
        Some(Mark { s: forced_x, x: forced_x })
    };
    let mut i: usize = 0;
    while i < stations.len()
        invariant
            i <= stations.len(),
            regimes.len() == i,
            forall|j: int|
                0 <= j < i ==> #[trigger] regimes[j] == regime_at(
                    stations@,
                    free_transition,
                    forced_x,
                    j,
                ),
            transition == transition_mark(stations@, free_transition, forced_x, i as int),
            separation == separation_mark(stations@, i as int),
        decreases stations.len() - i,
    {
        let st: Station = stations[i];
        if separation.is_none() && station_separates(&st) {
            separation = Some(Mark { s: st.s, x: st.x });
        }
        if transition.is_none() && station_transitions(&st) {
            transition = Some(Mark { s: st.s, x: st.x });
        }
        regimes.push(segment_regime(st.s_mid, transition, separation));
        i = i + 1;
    }
    let probable_stall = is_probable_stall(separation);
    SurfaceMarch { regimes, transition, separation, probable_stall }
}

/// Separation is recorded once, at the first station that meets the
/// criterion: the recorded station meets it, no earlier one does, and with
/// none recorded no station among `0..n` meets it.
pub proof fn lemma_separation_is_first(stations: Seq<Station>, n: int)
    requires
        0 <= n <= stations.len(),
    ensures
        match first_separation(stations, n) {
            Some(j) => 0 <= j < n && separates(stations[j]) && forall|k: int|
                0 <= k < j ==> !separates(#[trigger] stations[k]),
            None => forall|k: int| 0 <= k < n ==> !separates(#[trigger] stations[k]),
        },
    decreases n,
{
    if n > 0 {
        lemma_separation_is_first(stations, n - 1);
    }
}

/// Transition, where it is free, is recorded once, at the first station that
/// meets the criterion.
pub proof fn lemma_transition_is_first(stations: Seq<Station>, n: int)
    requires
        0 <= n <= stations.len(),
    ensures
        match first_transition(stations, n) {
            Some(j) => 0 <= j < n && transitions(stations[j]) && forall|k: int|
                0 <= k < j ==> !transitions(#[trigger] stations[k]),
            None => forall|k: int| 0 <= k < n ==> !transitions(#[trigger] stations[k]),
        },
    decreases n,
{
    if n > 0 {
        lemma_transition_is_first(stations, n - 1);
    }
}

/// What has been recorded is never revised: a separation known after `n`
/// stations is the separation known after any later station.
pub proof fn lemma_separation_is_kept(stations: Seq<Station>, n: int, later: int)
    requires
        0 <= n <= later,
        first_separation(stations, n) is Some,
    ensures
        first_separation(stations, later) == first_separation(stations, n),
    decreases later - n,
{
    if later > n {
        lemma_separation_is_kept(stations, n, later - 1);
    }
}

} // verus!
