//! A cache for the factorised panel system of one section.
//!
//! The matrix of the panel system depends on the geometry alone, so its
//! factorisation is kept for as long as the geometry stays what it was and
//! is made again when a digit or the number of points changes. The cache is
//! owned by whoever sweeps; what a factorisation is, is theirs to say.

use vstd::prelude::*;
use crate::state::NacaParams;

verus! {

/// What identifies the geometry of a section.
#[derive(Clone, Copy, Debug, PartialEq, Eq, Structural)]
pub struct PanelKey {
    pub m: u8,
    pub p: u8,
    pub t: u16,
    pub num_points: usize,
}

impl PanelKey {
    /// The key of a section: its digits, held to what a four-digit code can
    /// say, and its number of points.
    pub open spec fn of(params: NacaParams) -> PanelKey {
        PanelKey {
            m: if params.m_digit > 9 { 9u8 } else { params.m_digit },
            p: if params.p_digit > 9 { 9u8 } else { params.p_digit },
            t: if params.t_digits > 99 { 99u16 } else { params.t_digits as u16 },
            num_points: params.num_points,
        }
    }
}

impl From<&NacaParams> for PanelKey {
    fn from(params: &NacaParams) -> (key: PanelKey) {
        PanelKey {
            m: if params.m_digit > 9 { 9 } else { params.m_digit },
            p: if params.p_digit > 9 { 9 } else { params.p_digit },
            t: if params.t_digits > 99 { 99 } else { params.t_digits as u16 },
            num_points: params.num_points,
        }
    }
}

impl vstd::std_specs::convert::FromSpecImpl<&NacaParams> for PanelKey {
    open spec fn obeys_from_spec() -> bool {
        true
    }

    open spec fn from_spec(params: &NacaParams) -> PanelKey {
        PanelKey::of(*params)
    }
}

/// The factorisation made for one geometry, if one could be made.
pub struct PanelSystemCache<S> {
    /// The geometry that `system` was made for.
    pub key: Option<PanelKey>,
    /// The factorisation; `None` where the geometry gave a singular system.
    pub system: Option<S>,
}

impl<S> PanelSystemCache<S> {
    /// Whether what the cache holds was made for the geometry `key`.
    pub open spec fn is_current_spec(self, key: PanelKey) -> bool {
        self.key == Some(key)
    }

    /// An empty cache, current for no geometry.
    pub fn new() -> (cache: Self)
        ensures
            cache.key is None,
            cache.system is None,
            forall|key: PanelKey| !cache.is_current_spec(key),
    {
        PanelSystemCache { key: None, system: None }
    }

    /// Whether what the cache holds was made for the geometry `key`.
    pub fn is_current(&self, key: PanelKey) -> (r: bool)
        ensures
            r == self.is_current_spec(key),
    {
        match self.key {
            Some(k) => k == key,
            None => false,
        }
    }

    /// Puts in what was made for the geometry `key`, in place of what was
    /// there.
    pub fn store(&mut self, key: PanelKey, system: Option<S>)
        ensures
            final(self).key == Some(key),
            final(self).system == system,
    {
        self.key = Some(key);
        self.system = system;
    }

    /// Makes the cache current for the geometry `key`. Where it is current
    /// already, nothing is built and what is held stays; where it is not,
    /// `build` is called once and what it returns is stored under `key`,
    /// be it a factorisation or none. Tells whether it built.
    pub fn refresh<F: FnOnce() -> Option<S>>(&mut self, key: PanelKey, build: F) -> (rebuilt: bool)
        requires
            build.requires(()),
        ensures
            final(self).key == Some(key),
            rebuilt == !old(self).is_current_spec(key),
            !rebuilt ==> final(self).system == old(self).system,
            rebuilt ==> build.ensures((), final(self).system),
    {
        if self.is_current(key) {
            false
        } else {
            let system = build();
            self.key = Some(key);
            self.system = system;
            true
        }
    }

    /// Forgets what the cache holds.
    pub fn invalidate(&mut self)
        ensures
            final(self).key is None,
            final(self).system is None,
    {
        self.key = None;
        self.system = None;
    }

    /// The factorisation for the geometry `key`: the one held, if it was
    /// made for that geometry; none if it was made for another one, or if
    /// none could be made.
    pub fn get(&self, key: PanelKey) -> (r: Option<&S>)
        ensures
            r is Some <==> self.is_current_spec(key) && self.system is Some,
            r matches Some(s) ==> self.system == Some(*s),
    {
        if self.is_current(key) {
            self.system.as_ref()
        } else {
            None
        }
    }
}

/// Two sections whose digits fit a four-digit code have the same key only
/// if they are the same section: a change of any digit or of the number of
/// points changes the key.
pub proof fn lemma_key_identifies_geometry(a: NacaParams, b: NacaParams)
    requires
        a.fits_code(),
        b.fits_code(),
    ensures
        PanelKey::of(a) == PanelKey::of(b) <==> a == b,
{
}

} // verus!
