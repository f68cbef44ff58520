//! The bodies whose positions the ephemeris computes, numbered as its
//! tables are: 0 the Earth, 1 to 8 the planets out to Pluto, 9 the Sun and
//! 10 the Moon.
use vstd::prelude::*;

verus! {

/// Number of bodies.
pub const BODIES: usize = 11;

/// A body of the ephemeris.
#[derive(Debug, Default, Clone, Copy, PartialEq, Eq, Structural)]
pub enum CelestialBody {
    Earth,
    Mercury,
    Venus,
    Mars,
    Jupiter,
    Saturn,
    Uranus,
    Neptune,
    Pluto,
    Sun,
    #[default]
    Moon,
}

impl CelestialBody {
    /// The body's number.
    pub open spec fn number(self) -> int {
        match self {
            CelestialBody::Earth => 0,
            CelestialBody::Mercury => 1,
            CelestialBody::Venus => 2,
            CelestialBody::Mars => 3,
            CelestialBody::Jupiter => 4,
            CelestialBody::Saturn => 5,
            CelestialBody::Uranus => 6,
            CelestialBody::Neptune => 7,
            CelestialBody::Pluto => 8,
            CelestialBody::Sun => 9,
            CelestialBody::Moon => 10,
        }
    }

    /// The body numbered `value`; `None` past the last body.
    pub fn from_index(value: usize) -> (r: Option<CelestialBody>)
        ensures
            r is Some <==> value < BODIES,
            r matches Some(b) ==> b.number() == value,
    {
        match value {
            0 => Some(CelestialBody::Earth),
            1 => Some(CelestialBody::Mercury),
            2 => Some(CelestialBody::Venus),
            3 => Some(CelestialBody::Mars),
            4 => Some(CelestialBody::Jupiter),
            5 => Some(CelestialBody::Saturn),
            6 => Some(CelestialBody::Uranus),
            7 => Some(CelestialBody::Neptune),
            8 => Some(CelestialBody::Pluto),
            9 => Some(CelestialBody::Sun),
            10 => Some(CelestialBody::Moon),
            _ => None,
        }
    }

    /// The body's number.
    pub fn index(&self) -> (r: usize)
        ensures
            r == self.number(),
            r < BODIES,
    {
        match self {
            CelestialBody::Earth => 0,
            CelestialBody::Mercury => 1,
            CelestialBody::Venus => 2,
            CelestialBody::Mars => 3,
            CelestialBody::Jupiter => 4,
            CelestialBody::Saturn => 5,
            CelestialBody::Uranus => 6,
            CelestialBody::Neptune => 7,
            CelestialBody::Pluto => 8,
            CelestialBody::Sun => 9,
            CelestialBody::Moon => 10,
        }
    }
}

} // verus!
