//! The configuration the manager consumes as plain data at construction:
//! workspace names, floating window classes, the layout list, and the
//! gap/border/parameter constants.

use vstd::prelude::*;

use crate::layout::Layout;
use crate::workspace::{RATIO_MAX, RATIO_MIN};

verus! {

/// Everything injected into the manager at start. `border_px` and `gap_px`
/// are applied outside the layouts when rectangles become configure
/// requests; `max_main` and `ratio` are the initial layout parameters of
/// every workspace.
#[derive(Debug)]
pub struct Config {
    pub workspace_names: Vec<String>,
    pub floating_classes: Vec<String>,
    pub layouts: Vec<Layout>,
    pub border_px: u32,
    pub gap_px: u32,
    pub max_main: u32,
    pub ratio: u32,
    pub focused_border_color: u32,
    pub unfocused_border_color: u32,
}

/// A window class that the configuration pins as floating.
pub open spec fn class_floats(cfg: Config, class: Seq<char>) -> bool {
    exists|j: int| 0 <= j < cfg.floating_classes.len() && cfg.floating_classes[j]@ == class
}

impl Config {
    /// Validity: at least one workspace name and one layout, parameters in
    /// range, and constants small enough for the padding arithmetic.
    pub open spec fn wf(self) -> bool {
        &&& self.workspace_names.len() > 0
        &&& self.layouts.len() > 0
        &&& 1 <= self.max_main
        &&& RATIO_MIN < self.ratio < RATIO_MAX
        &&& 2 * (self.border_px + self.gap_px) <= u32::MAX
    }
}

/// Whether `class` is one of the configured floating classes.
pub fn is_floating_class(classes: &Vec<String>, class: &String) -> (r: bool)
    ensures
        r == exists|j: int| 0 <= j < classes@.len() && classes@[j]@ == class@,
{
    let mut i: usize = 0;
    let n = classes.len();
    while i < n
        invariant
            i <= n,
            n == classes@.len(),
            forall|j: int| 0 <= j < i ==> classes@[j]@ != class@,
        decreases n - i,
    {
        if classes[i] == *class {
            assert(classes@[i as int]@ == class@);
            return true;
        }
        i = i + 1;
    }
    false
}

} // verus!
