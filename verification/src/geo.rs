//! Geographic coordinates of profiles and postal-code centroids.
//!
//! Coordinates are carried through the engine as plain fixed-point values.
//! The great-circle distance between two coordinates is floating-point
//! geometry, which stays outside the verified engine: callers compute it
//! (the application uses `geoutils` for that) and hand the engine whole
//! meters.  The engine only ever reads distances, it never recomputes them.

use vstd::prelude::*;

verus! {

/// A point on Earth. Latitude and longitude are stored in millionths of a
/// degree, so `52_518_611` stands for `52.518611°`.
#[derive(Clone, Copy, Debug)]
pub struct Location {
    pub lat: i64,
    pub lon: i64,
}

impl Location {
    pub fn new(lat: i64, lon: i64) -> (r: Location)
        ensures
            r.lat == lat,
            r.lon == lon,
    {
        Location { lat, lon }
    }
}

} // verus!
