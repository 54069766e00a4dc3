use vstd::prelude::*;
use crate::emulator::quirks::Quirks;

verus! {

/// The settings of the interpreter core: its speed and its quirks.
/// (Display colours belong to the front end.)
pub struct Config {
    /// Instructions executed per second.
    pub cpu_hz: u32,
    pub quirks: Quirks,
}

impl Default for Config {
    /// 700 instructions per second and the default quirks.
    fn default() -> (c: Config)
        ensures
            c.cpu_hz == 700,
            c.quirks == (Quirks { vf_reset: false, memory_increment: true, clipping: false, shifting: false }),
    {
        Config { cpu_hz: 700, quirks: Quirks::default() }
    }
}

} // verus!
