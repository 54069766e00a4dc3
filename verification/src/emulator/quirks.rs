use vstd::prelude::*;
use crate::config::Config;

verus! {

/// Behaviours of instruction edge cases that differ between interpreters.
pub struct Quirks {
    /// 8XY1, 8XY2 and 8XY3 clear VF.
    pub vf_reset: bool,
    /// FX55 and FX65 leave I pointing past the last register transferred.
    pub memory_increment: bool,
    /// Sprites are cut at the display edges instead of wrapping around.
    pub clipping: bool,
    /// 8XY6 and 8XYE shift VY into VX instead of shifting VX in place.
    pub shifting: bool,
}

impl Quirks {
    /// The quirks that `config` selects.
    pub fn new(config: &Config) -> (q: Quirks)
        ensures
            q == config.quirks,
    {
        Quirks {
            vf_reset: config.quirks.vf_reset,
            memory_increment: config.quirks.memory_increment,
            clipping: config.quirks.clipping,
            shifting: config.quirks.shifting,
        }
    }
}

impl Default for Quirks {
    /// Only the memory increment of the original interpreter.
    fn default() -> (q: Quirks)
        ensures
            q == (Quirks { vf_reset: false, memory_increment: true, clipping: false, shifting: false }),
    {
        Quirks { vf_reset: false, memory_increment: true, clipping: false, shifting: false }
    }
}

} // verus!
