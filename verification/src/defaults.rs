//! Default instrument-region values that can be supplied ahead of tagging.

use vstd::prelude::*;

use crate::RiffError;

verus! {

/// Default values for one region: the sample file it applies to and its
/// key and velocity ranges.
pub struct RegionDefaults {
    pub file: String,
    pub pitch_keycenter: u32,
    pub lokey: u32,
    pub hikey: u32,
    pub lovel: u32,
    pub hivel: u32,
}

/// A set of per-region defaults, one entry per sample file.
pub struct InstrumentDefaults {
    pub regions: Vec<RegionDefaults>,
}

impl InstrumentDefaults {
    /// An empty set of defaults.
    pub fn new() -> (r: Self)
        ensures
            r.regions@.len() == 0,
    {
        InstrumentDefaults { regions: Vec::new() }
    }

    /// Read defaults from SFZ text: every input is accepted and yields an
    /// empty set of regions, so values come from prompting instead.
    pub fn parse_sfz(bytes: &Vec<u8>) -> (r: Result<Self, RiffError>)
        ensures
            r matches Ok(d) && d.regions@.len() == 0,
    {
        let _ = bytes.len();
        Ok(InstrumentDefaults { regions: Vec::new() })
    }
}

} // verus!
