//! Per-window state for a managed top-level window.

use vstd::prelude::*;

use crate::data_types::WinId;

verus! {

/// A managed top-level window. The id is immutable and the floating flag is
/// fixed at creation; the focus flag drives the border-colour requests.
#[derive(Debug)]
pub struct Client {
    pub id: WinId,
    pub wm_class: String,
    pub floating: bool,
    pub focused: bool,
}

impl Client {
    pub fn new(id: WinId, wm_class: String, floating: bool) -> (c: Client)
        ensures
            c.id == id,
            c.wm_class == wm_class,
            c.floating == floating,
            !c.focused,
    {
        Client { id, wm_class, floating, focused: false }
    }

    /// Record that this window holds the input focus. Idempotent.
    pub fn focus(&mut self)
        ensures
            *final(self) == (Client { focused: true, ..*old(self) }),
    {
        self.focused = true;
    }

    /// Record that this window lost the input focus. Idempotent.
    pub fn unfocus(&mut self)
        ensures
            *final(self) == (Client { focused: false, ..*old(self) }),
    {
        self.focused = false;
    }
}

} // verus!
