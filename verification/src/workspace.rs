//! A workspace: a named ring of client ids, the list of layouts it can
//! cycle through, and the layout parameters.

use vstd::prelude::*;

use crate::data_types::{Change, Direction, Region, WinId};
use crate::layout;
use crate::layout::Layout;

verus! {

/// Lower bound (exclusive) of the main ratio, in percent.
pub const RATIO_MIN: u32 = 5;

/// Upper bound (exclusive) of the main ratio, in percent.
pub const RATIO_MAX: u32 = 95;

/// Step of one ratio adjustment, in percent.
pub const RATIO_STEP: u32 = 5;

/// An ordered group of client ids sharing a layout. `clients` is the ring
/// traversed by next/previous; `focused` indexes the focused ring member
/// (and is pinned to 0 while the ring is empty).
#[derive(Debug)]
pub struct Workspace {
    pub name: String,
    pub clients: Vec<WinId>,
    pub focused: usize,
    pub layouts: Vec<Layout>,
    pub layout_index: usize,
    pub max_main: u32,
    pub ratio: u32,
}

/// The ring index that stays focused after removing position `p` from a ring
/// of length `len` whose focused index was `f`: unchanged for removals past
/// the focus, shifted down for removals before it, and for the focused
/// member itself the next id in ring order, wrapping to the previous when
/// the tail was removed.
pub open spec fn removed_focus(len: int, f: int, p: int) -> int {
    if len <= 1 {
        0
    } else if p < f {
        f - 1
    } else if p > f {
        f
    } else if p == len - 1 {
        p - 1
    } else {
        p
    }
}

/// The ring after removing `id`: the first (under no duplicates, the only)
/// occurrence disappears; a ring without `id` stays as it is.
pub open spec fn removed_ring(ring: Seq<WinId>, id: WinId) -> Seq<WinId> {
    if ring.contains(id) {
        ring.remove(ring.index_of(id))
    } else {
        ring
    }
}

/// The focused index after removing `id` from a ring whose focused index
/// was `f`.
pub open spec fn removed_ring_focus(ring: Seq<WinId>, f: int, id: WinId) -> int {
    if ring.contains(id) {
        removed_focus(ring.len() as int, f, ring.index_of(id))
    } else {
        f
    }
}

/// Removing `id` from a duplicate-free ring keeps it duplicate-free, drops
/// `id`, and keeps every other member.
pub proof fn lemma_removed_ring(ring: Seq<WinId>, id: WinId)
    requires
        ring.no_duplicates(),
    ensures
        removed_ring(ring, id).no_duplicates(),
        !removed_ring(ring, id).contains(id),
        forall|x: WinId| #[trigger] removed_ring(ring, id).contains(x) ==> ring.contains(x),
        forall|x: WinId|
            x != id && #[trigger] ring.contains(x) ==> removed_ring(ring, id).contains(x),
        ring.contains(id) ==> removed_ring(ring, id).len() == ring.len() - 1,
        !ring.contains(id) ==> removed_ring(ring, id) == ring,
{
    if ring.contains(id) {
        let p = ring.index_of(id);
        assert(0 <= p < ring.len() && ring[p] == id);
        let r = ring.remove(p);
        assert(forall|j: int| 0 <= j < p ==> r[j] == ring[j]);
        assert(forall|j: int| p <= j < r.len() ==> r[j] == ring[j + 1]);
        assert(r.no_duplicates()) by {
            assert forall|i: int, j: int|
                0 <= i < r.len() && 0 <= j < r.len() && i != j implies r[i] != r[j] by {
                let i0 = if i < p {
                    i
                } else {
                    i + 1
                };
                let j0 = if j < p {
                    j
                } else {
                    j + 1
                };
                assert(r[i] == ring[i0] && r[j] == ring[j0] && i0 != j0);
            }
        }
        assert(!r.contains(id)) by {
            assert forall|j: int| 0 <= j < r.len() implies r[j] != id by {
                if j < p {
                    assert(r[j] == ring[j]);
                } else {
                    assert(r[j] == ring[j + 1]);
                }
            }
        }
        assert forall|x: WinId| #[trigger] r.contains(x) implies ring.contains(x) by {
            let j = choose|j: int| 0 <= j < r.len() && r[j] == x;
            if j < p {
                assert(ring[j] == x);
            } else {
                assert(ring[j + 1] == x);
            }
        }
        assert forall|x: WinId| x != id && #[trigger] ring.contains(x) implies r.contains(x) by {
            let j = choose|j: int| 0 <= j < ring.len() && ring[j] == x;
            if j < p {
                assert(r[j] == x);
            } else {
                assert(j != p);
                assert(r[j - 1] == x);
            }
        }
    }
}

/// The ring index one step from `f` in `direction`, wrapping around a ring
/// of length `len`.
pub open spec fn cycled_index(len: int, f: int, direction: Direction) -> int {
    match direction {
        Direction::Forward => (f + 1) % len,
        Direction::Backward => (f + len - 1) % len,
    }
}

/// `cycled_index` steps one position forward or backward with wraparound,
/// and always lands inside the ring.
pub proof fn lemma_cycled_index(len: int, f: int, direction: Direction)
    requires
        0 < len,
        0 <= f < len,
    ensures
        cycled_index(len, f, direction) == match direction {
            Direction::Forward => if f + 1 == len {
                0int
            } else {
                f + 1
            },
            Direction::Backward => if f == 0 {
                len - 1
            } else {
                f - 1
            },
        },
        0 <= cycled_index(len, f, direction) < len,
{
    match direction {
        Direction::Forward => {
            if f + 1 == len {
                assert(len % len == 0) by (nonlinear_arith)
                    requires
                        0 < len,
                ;
            } else {
                assert((f + 1) % len == f + 1) by (nonlinear_arith)
                    requires
                        0 <= f + 1 < len,
                ;
            }
        },
        Direction::Backward => {
            if f == 0 {
                assert((len - 1) % len == len - 1) by (nonlinear_arith)
                    requires
                        0 < len,
                ;
            } else {
                assert((f + len - 1) % len == f - 1) by (nonlinear_arith)
                    requires
                        0 < f < len,
                ;
            }
        },
    }
}

impl Workspace {
    /// Validity: at least one layout, indices in range, and parameters in
    /// their documented ranges.
    pub open spec fn wf(self) -> bool {
        &&& self.layouts.len() > 0
        &&& self.layout_index < self.layouts.len()
        &&& if self.clients.len() > 0 {
            self.focused < self.clients.len()
        } else {
            self.focused == 0
        }
        &&& 1 <= self.max_main
        &&& RATIO_MIN < self.ratio < RATIO_MAX
    }

    /// The focused client id, if the ring is non-empty.
    pub open spec fn focused_client_spec(self) -> Option<WinId> {
        if self.clients.len() == 0 {
            None
        } else {
            Some(self.clients[self.focused as int])
        }
    }

    /// The layout this workspace currently arranges with.
    pub open spec fn current_layout(self) -> Layout {
        self.layouts[self.layout_index as int]
    }

    pub fn new(name: String, layouts: Vec<Layout>, max_main: u32, ratio: u32) -> (ws: Workspace)
        requires
            layouts.len() > 0,
            1 <= max_main,
            RATIO_MIN < ratio < RATIO_MAX,
        ensures
            ws == (Workspace {
                name,
                clients: ws.clients,
                focused: 0,
                layouts,
                layout_index: 0,
                max_main,
                ratio,
            }),
            ws.clients@ == Seq::<WinId>::empty(),
            ws.wf(),
    {
        let ws = Workspace {
            name,
            clients: Vec::new(),
            focused: 0,
            layouts,
            layout_index: 0,
            max_main,
            ratio,
        };
        proof {
            assert(ws.clients@ =~= Seq::<WinId>::empty());
        }
        ws
    }

    /// Append `id` to the ring; the new id becomes the focused client.
    pub fn add_client(&mut self, id: WinId)
        requires
            old(self).wf(),
        ensures
            *final(self) == (Workspace {
                clients: final(self).clients,
                focused: final(self).focused,
                ..*old(self)
            }),
            final(self).clients@ == old(self).clients@.push(id),
            final(self).focused == old(self).clients@.len(),
            final(self).wf(),
    {
        self.clients.push(id);
        self.focused = self.clients.len() - 1;
    }

    /// Remove `id` from the ring if present; the focus moves as
    /// [`removed_focus`] describes. Removing an unknown id is a no-op.
    pub fn remove_client(&mut self, id: WinId)
        requires
            old(self).wf(),
            old(self).clients@.no_duplicates(),
        ensures
            *final(self) == (Workspace {
                clients: final(self).clients,
                focused: final(self).focused,
                ..*old(self)
            }),
            !old(self).clients@.contains(id) ==> *final(self) == *old(self),
            final(self).clients@ == removed_ring(old(self).clients@, id),
            final(self).focused == removed_ring_focus(
                old(self).clients@,
                old(self).focused as int,
                id,
            ),
            !final(self).clients@.contains(id),
            final(self).wf(),
            final(self).clients@.no_duplicates(),
    {
        let ghost orig = self.clients@;
        let mut p: usize = 0;
        let len = self.clients.len();
        while p < len && self.clients[p] != id
            invariant
                p <= len,
                len == self.clients.len(),
                self.clients@ == orig,
                forall|j: int| 0 <= j < p ==> self.clients@[j] != id,
            decreases len - p,
        {
            p = p + 1;
        }
        if p == len {
            assert(!orig.contains(id)) by {
                assert(forall|j: int| 0 <= j < orig.len() ==> orig[j] != id);
            }
            return;
        }
        proof {
            assert(orig.contains(id)) by {
                assert(orig[p as int] == id);
            }
            let q = orig.index_of(id);
            assert(0 <= q < orig.len() && orig[q] == id);
            assert(q == p as int) by {
                if q != p as int {
                    assert(orig[q] == orig[p as int]);
                }
            }
        }
        self.clients.remove(p);
        if self.clients.len() == 0 {
            self.focused = 0;
        } else if p < self.focused {
            self.focused = self.focused - 1;
        } else if p == self.focused && p == self.clients.len() {
            self.focused = p - 1;
        }
        proof {
            let s = orig;
            let r = self.clients@;
            let pi = p as int;
            assert(forall|j: int| 0 <= j < pi ==> r[j] == s[j]);
            assert(forall|j: int| pi <= j < r.len() ==> r[j] == s[j + 1]);
            assert(!r.contains(id)) by {
                assert forall|j: int| 0 <= j < r.len() implies r[j] != id by {
                    if j < pi {
                        assert(r[j] == s[j]);
                    } else {
                        assert(r[j] == s[j + 1]);
                    }
                }
            }
            assert(r.no_duplicates()) by {
                assert forall|i: int, j: int|
                    0 <= i < r.len() && 0 <= j < r.len() && i != j implies r[i] != r[j] by {
                    let i0 = if i < pi {
                        i
                    } else {
                        i + 1
                    };
                    let j0 = if j < pi {
                        j
                    } else {
                        j + 1
                    };
                    assert(r[i] == s[i0] && r[j] == s[j0] && i0 != j0);
                }
            }
        }
    }

    /// Move the ring focus one step in `direction`, wrapping around, and
    /// report `(previous, new)` focused ids. Rings with fewer than two
    /// members are left alone.
    pub fn cycle_client(&mut self, direction: Direction) -> (r: Option<(WinId, WinId)>)
        requires
            old(self).wf(),
        ensures
            *final(self) == (Workspace { focused: final(self).focused, ..*old(self) }),
            old(self).clients.len() < 2 ==> r is None && *final(self) == *old(self),
            old(self).clients.len() >= 2 ==> {
                let len = old(self).clients.len() as int;
                let f = old(self).focused as int;
                let nf = cycled_index(len, f, direction);
                &&& final(self).focused == nf
                &&& r == Some((old(self).clients[f], old(self).clients[nf]))
            },
            final(self).wf(),
    {
        let len = self.clients.len();
        if len < 2 {
            return None;
        }
        let f = self.focused;
        let previous = self.clients[f];
        let nf: usize = match direction {
            Direction::Forward => {
                if f + 1 == len {
                    0
                } else {
                    f + 1
                }
            },
            Direction::Backward => {
                if f == 0 {
                    len - 1
                } else {
                    f - 1
                }
            },
        };
        proof {
            lemma_cycled_index(len as int, f as int, direction);
        }
        self.focused = nf;
        Some((previous, self.clients[nf]))
    }

    /// Rotate the active layout one step in `direction`, wrapping around.
    pub fn cycle_layout(&mut self, direction: Direction)
        requires
            old(self).wf(),
        ensures
            *final(self) == (Workspace { layout_index: final(self).layout_index, ..*old(self) }),
            final(self).layout_index == cycled_index(
                old(self).layouts.len() as int,
                old(self).layout_index as int,
                direction,
            ),
            final(self).wf(),
    {
        let len = self.layouts.len();
        let i = self.layout_index;
        let ni: usize = match direction {
            Direction::Forward => {
                if i + 1 == len {
                    0
                } else {
                    i + 1
                }
            },
            Direction::Backward => {
                if i == 0 {
                    len - 1
                } else {
                    i - 1
                }
            },
        };
        proof {
            lemma_cycled_index(len as int, i as int, direction);
        }
        self.layout_index = ni;
    }

    /// Adjust `max_main` by one, never below 1 (and saturating at the top of
    /// the machine range).
    pub fn update_max_main(&mut self, change: Change)
        requires
            old(self).wf(),
        ensures
            *final(self) == (Workspace { max_main: final(self).max_main, ..*old(self) }),
            final(self).max_main == match change {
                Change::More => if old(self).max_main < u32::MAX {
                    old(self).max_main + 1
                } else {
                    old(self).max_main as int
                },
                Change::Less => if old(self).max_main > 1 {
                    old(self).max_main - 1
                } else {
                    1
                },
            },
            final(self).max_main >= 1,
            final(self).wf(),
    {
        match change {
            Change::More => {
                if self.max_main < u32::MAX {
                    self.max_main = self.max_main + 1;
                }
            },
            Change::Less => {
                if self.max_main > 1 {
                    self.max_main = self.max_main - 1;
                }
            },
        }
    }

    /// Adjust the main ratio by one step, staying strictly inside
    /// `(RATIO_MIN, RATIO_MAX)` percent.
    pub fn update_main_ratio(&mut self, change: Change)
        requires
            old(self).wf(),
        ensures
            *final(self) == (Workspace { ratio: final(self).ratio, ..*old(self) }),
            final(self).ratio == match change {
                Change::More => if old(self).ratio + RATIO_STEP < RATIO_MAX {
                    old(self).ratio + RATIO_STEP
                } else {
                    old(self).ratio as int
                },
                Change::Less => if old(self).ratio > RATIO_MIN + RATIO_STEP {
                    old(self).ratio - RATIO_STEP
                } else {
                    old(self).ratio as int
                },
            },
            RATIO_MIN < final(self).ratio < RATIO_MAX,
            final(self).wf(),
    {
        match change {
            Change::More => {
                if self.ratio + RATIO_STEP < RATIO_MAX {
                    self.ratio = self.ratio + RATIO_STEP;
                }
            },
            Change::Less => {
                if self.ratio > RATIO_MIN + RATIO_STEP {
                    self.ratio = self.ratio - RATIO_STEP;
                }
            },
        }
    }

    /// Ask the active layout for one rectangle per ring member.
    pub fn arrange(&self, region: &Region) -> (out: Vec<(WinId, Region)>)
        requires
            self.wf(),
            layout::region_within_limits(*region),
        ensures
            out@ == layout::arrange_spec(
                self.current_layout(),
                *region,
                self.clients@,
                self.max_main as int,
                self.ratio as int,
            ),
    {
        layout::arrange(
            &self.layouts[self.layout_index],
            region,
            &self.clients,
            self.max_main,
            self.ratio,
        )
    }

    /// The focused client id, or nothing for an empty ring.
    pub fn focused_client(&self) -> (r: Option<WinId>)
        requires
            self.wf(),
        ensures
            r == self.focused_client_spec(),
    {
        if self.clients.len() == 0 {
            None
        } else {
            Some(self.clients[self.focused])
        }
    }
}

} // verus!
