use vstd::prelude::*;

verus! {

/// A geographic coordinate, each component held as the IEEE-754 bit pattern
/// of its degrees, so that it is carried through the library exactly.
#[derive(Clone, Copy, Debug, PartialEq, Eq, Structural)]
pub struct Coordinate {
    pub lat_bits: u64,
    pub lng_bits: u64,
}

impl Coordinate {
    pub fn new(lat_bits: u64, lng_bits: u64) -> (r: Coordinate)
        ensures
            r.lat_bits == lat_bits,
            r.lng_bits == lng_bits,
    {
        Coordinate { lat_bits, lng_bits }
    }
}

} // verus!
