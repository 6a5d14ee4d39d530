//! A physical output: its pixel region and the workspace shown on it.

use vstd::prelude::*;

use crate::data_types::Region;

verus! {

/// One physical screen. `wix` is the index of the workspace currently
/// displayed on it; across the manager's screens these indices are distinct.
#[derive(Clone, Copy, Debug, PartialEq, Eq, Structural)]
pub struct Screen {
    pub region: Region,
    pub wix: usize,
}

impl Screen {
    pub fn new(region: Region, wix: usize) -> (s: Screen)
        ensures
            s == (Screen { region, wix }),
    {
        Screen { region, wix }
    }
}

} // verus!
