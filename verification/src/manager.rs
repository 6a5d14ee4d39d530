//! The manager: owner of the (clients, workspaces, screens) relation and of
//! the event-driven state machine over it.
//!
//! Every event handler and user command mutates the state and returns, in
//! submission order, the X requests a driver must perform. The driver owns
//! the real connection: it pumps one event, calls the matching handler,
//! performs the returned requests, flushes, and repeats.

use vstd::prelude::*;

use crate::client::Client;
use crate::config::Config;
use crate::data_types::{Region, WinId, XRequest};
use crate::layout;
use crate::screen::Screen;
use crate::workspace::Workspace;

verus! {

/// Why the manager could not be constructed.
#[derive(Clone, Copy, Debug, PartialEq, Eq, Structural)]
pub enum StartupError {
    /// No physical output was reported.
    NoOutputs,
    /// The configured workspace name list is empty.
    NoWorkspaces,
    /// More outputs than configured workspaces: a screen would have no
    /// workspace to show.
    TooFewWorkspaces,
    /// The configured layout list is empty.
    NoLayouts,
    /// A layout parameter or the border/gap constants are out of range.
    BadParams,
    /// A screen region too small for the configured border and gap, or too
    /// close to the edge of the coordinate space.
    BadRegion,
}

/// The pixels lost on each axis of a tiled rectangle: a gap and a border on
/// either side.
pub open spec fn padding(cfg: Config) -> int {
    2 * (cfg.border_px + cfg.gap_px)
}

/// A screen region the padding arithmetic is safe on: the region clears the
/// padding, and padded coordinates stay inside `u32`.
pub open spec fn screen_region_ok(cfg: Config, r: Region) -> bool {
    &&& r.x + r.w + cfg.gap_px <= u32::MAX
    &&& r.y + r.h + cfg.gap_px <= u32::MAX
    &&& padding(cfg) < r.w
    &&& padding(cfg) < r.h
}

/// A dimension with the padding taken off. A rectangle smaller than its
/// padding yields the minimal size 1 (the X server refuses size 0).
pub open spec fn shrunk(cfg: Config, d: u32) -> u32 {
    if padding(cfg) < d {
        (d - padding(cfg)) as u32
    } else {
        1u32
    }
}

/// A layout rectangle turned into window geometry: moved in by the gap and
/// shrunk by gap and border on both sides.
pub open spec fn padded_rect(cfg: Config, r: Region) -> Region {
    Region {
        x: (r.x + cfg.gap_px) as u32,
        y: (r.y + cfg.gap_px) as u32,
        w: shrunk(cfg, r.w),
        h: shrunk(cfg, r.h),
    }
}

/// The configure request that places `id` on the layout rectangle `r`:
/// the padded geometry with the configured border width.
pub open spec fn configure_of(cfg: Config, id: WinId, r: Region) -> XRequest {
    XRequest::Configure {
        id,
        x: padded_rect(cfg, r).x,
        y: padded_rect(cfg, r).y,
        w: padded_rect(cfg, r).w,
        h: padded_rect(cfg, r).h,
        border: cfg.border_px,
    }
}

/// The focus/unfocus requests an `EnterNotify` for `win` produces: one per
/// known client in list order, focusing the matching window and unfocusing
/// every other.
pub open spec fn focus_requests(clients: Seq<Client>, win: WinId) -> Seq<XRequest> {
    Seq::new(
        clients.len(),
        |i: int|
            if clients[i].id == win {
                XRequest::Focus(win)
            } else {
                XRequest::Unfocus(clients[i].id)
            },
    )
}

/// One unmap request per ring member, in ring order.
pub open spec fn unmap_requests(ring: Seq<WinId>) -> Seq<XRequest> {
    Seq::new(ring.len(), |i: int| XRequest::UnmapWindow(ring[i]))
}

/// One map request per ring member, in ring order.
pub open spec fn map_requests(ring: Seq<WinId>) -> Seq<XRequest> {
    Seq::new(ring.len(), |i: int| XRequest::MapWindow(ring[i]))
}

/// The focus handover requests a client cycle produces: walking the client
/// list in order, the previous holder gets an unfocus request and the new
/// holder a focus request.
pub open spec fn cycle_focus_requests(clients: Seq<Client>, prev: WinId, cur: WinId) -> Seq<
    XRequest,
>
    decreases clients.len(),
{
    if clients.len() == 0 {
        Seq::empty()
    } else {
        let rest = cycle_focus_requests(clients.drop_first(), prev, cur);
        if clients[0].id == prev {
            seq![XRequest::Unfocus(prev)] + rest
        } else if clients[0].id == cur {
            seq![XRequest::Focus(cur)] + rest
        } else {
            rest
        }
    }
}

/// The position of the client record carrying `id` (meaningful when ids are
/// unique and some record carries `id`).
pub open spec fn client_index(clients: Seq<Client>, id: WinId) -> int {
    choose|c: int| 0 <= c < clients.len() && clients[c].id == id
}

/// The client list after dropping the record carrying `id`, if any.
pub open spec fn clients_after_remove(clients: Seq<Client>, id: WinId) -> Seq<Client> {
    if exists|c: int| 0 <= c < clients.len() && clients[c].id == id {
        clients.remove(client_index(clients, id))
    } else {
        clients
    }
}

/// The per-screen workspace assignment after the focused screen `f`
/// switches to workspace `target`: unchanged when `f` already shows it,
/// swapped with the screen that shows it when one does, and a plain
/// rebinding of `f` when the workspace is off-screen.
pub open spec fn switched_wixes(wixes: Seq<usize>, f: int, target: usize) -> Seq<usize> {
    if wixes[f] == target {
        wixes
    } else if exists|j: int| 0 <= j < wixes.len() && wixes[j] == target {
        let j = choose|j: int| 0 <= j < wixes.len() && wixes[j] == target;
        wixes.update(j, wixes[f]).update(f, target)
    } else {
        wixes.update(f, target)
    }
}

/// The window manager state: configuration, screens in output order,
/// workspaces in configuration order, the global client list, and the index
/// of the focused screen.
#[derive(Debug)]
pub struct WindowManager {
    pub config: Config,
    pub screens: Vec<Screen>,
    pub workspaces: Vec<Workspace>,
    pub clients: Vec<Client>,
    pub focused_screen: usize,
}

impl WindowManager {
    /// The ring of workspace `k`.
    pub open spec fn ring(self, k: int) -> Seq<WinId> {
        self.workspaces[k].clients@
    }

    /// Some client record carries `id`.
    pub open spec fn knows_client(self, id: WinId) -> bool {
        exists|c: int| 0 <= c < self.clients.len() && self.clients[c].id == id
    }

    /// Some non-floating client record carries `id`.
    pub open spec fn knows_tiled_client(self, id: WinId) -> bool {
        exists|c: int|
            0 <= c < self.clients.len() && self.clients[c].id == id && !self.clients[c].floating
    }

    /// `id` lies in some workspace ring.
    pub open spec fn in_some_ring(self, id: WinId) -> bool {
        exists|k: int| 0 <= k < self.workspaces.len() && self.ring(k).contains(id)
    }

    /// Screen validity: a focused screen exists, every screen shows a real
    /// workspace, no two screens show the same one, and every region is
    /// safe for the padding arithmetic.
    pub open spec fn screens_wf(self) -> bool {
        &&& self.screens.len() > 0
        &&& self.focused_screen < self.screens.len()
        &&& forall|i: int|
            0 <= i < self.screens.len() ==> (#[trigger] self.screens[i]).wix
                < self.workspaces.len()
        &&& forall|i: int, j: int|
            0 <= i < self.screens.len() && 0 <= j < self.screens.len() && i != j ==> (
            #[trigger] self.screens[i]).wix != (#[trigger] self.screens[j]).wix
        &&& forall|i: int|
            0 <= i < self.screens.len() ==> screen_region_ok(
                self.config,
                (#[trigger] self.screens[i]).region,
            )
    }

    /// Workspace validity: every workspace is well formed and no ring
    /// repeats an id.
    pub open spec fn workspaces_wf(self) -> bool {
        &&& self.workspaces.len() > 0
        &&& forall|k: int| 0 <= k < self.workspaces.len() ==> (#[trigger] self.workspaces[k]).wf()
        &&& forall|k: int|
            0 <= k < self.workspaces.len() ==> (
            #[trigger] self.workspaces[k]).clients@.no_duplicates()
    }

    /// Client validity: ids are globally unique, every ring member is a
    /// known non-floating client, and no id lies in two rings.
    pub open spec fn clients_wf(self) -> bool {
        &&& forall|a: int, b: int|
            0 <= a < self.clients.len() && 0 <= b < self.clients.len() && a != b ==> (
            #[trigger] self.clients[a]).id != (#[trigger] self.clients[b]).id
        &&& forall|k: int, i: int|
            0 <= k < self.workspaces.len() && 0 <= i < self.ring(k).len()
                ==> self.knows_tiled_client(#[trigger] self.ring(k)[i])
        &&& forall|k1: int, i1: int, k2: int, i2: int|
            0 <= k1 < self.workspaces.len() && 0 <= i1 < self.ring(k1).len() && 0 <= k2
                < self.workspaces.len() && 0 <= i2 < self.ring(k2).len() && k1 != k2 ==> (
            #[trigger] self.ring(k1)[i1]) != (#[trigger] self.ring(k2)[i2])
    }

    /// The manager invariant, held at every externally observable moment.
    pub open spec fn wf(self) -> bool {
        &&& self.config.wf()
        &&& self.screens_wf()
        &&& self.workspaces_wf()
        &&& self.clients_wf()
    }

    /// The workspace shown on screen `s`.
    pub open spec fn workspace_on_screen(self, s: int) -> Workspace {
        self.workspaces[self.screens[s].wix as int]
    }

    /// The workspace index shown on each screen, in screen order.
    pub open spec fn wixes(self) -> Seq<usize> {
        Seq::new(self.screens@.len(), |i: int| self.screens[i].wix)
    }

    /// The configure requests a reconcile of screen `s` issues: the active
    /// layout's rectangles, padded, in ring order.
    pub open spec fn configure_requests(self, s: int) -> Seq<XRequest> {
        let ws = self.workspace_on_screen(s);
        let rects = layout::arrange_spec(
            ws.current_layout(),
            self.screens[s].region,
            ws.clients@,
            ws.max_main as int,
            ws.ratio as int,
        );
        Seq::new(rects.len(), |i: int| configure_of(self.config, rects[i].0, rects[i].1))
    }

    /// What construction rejects, checked in order; `None` means the
    /// configuration and the outputs are acceptable.
    pub open spec fn startup_check(config: Config, regions: Seq<Region>) -> Option<StartupError> {
        if regions.len() == 0 {
            Some(StartupError::NoOutputs)
        } else if config.workspace_names.len() == 0 {
            Some(StartupError::NoWorkspaces)
        } else if regions.len() > config.workspace_names.len() {
            Some(StartupError::TooFewWorkspaces)
        } else if config.layouts.len() == 0 {
            Some(StartupError::NoLayouts)
        } else if !(1 <= config.max_main && crate::workspace::RATIO_MIN < config.ratio
            < crate::workspace::RATIO_MAX && 2 * (config.border_px + config.gap_px)
            <= u32::MAX) {
            Some(StartupError::BadParams)
        } else if !(forall|i: int|
            0 <= i < regions.len() ==> screen_region_ok(config, #[trigger] regions[i])) {
            Some(StartupError::BadRegion)
        } else {
            None
        }
    }

    /// The freshly constructed state: screen `i` shows workspace `i`, every
    /// workspace carries the configured layouts and parameters with an
    /// empty ring, no client is known, and the first screen is focused.
    pub open spec fn initial_state(self, config: Config, regions: Seq<Region>) -> bool {
        &&& self.config == config
        &&& self.screens.len() == regions.len()
        &&& forall|i: int|
            0 <= i < regions.len() ==> #[trigger] self.screens[i] == (Screen {
                region: regions[i],
                wix: i as usize,
            })
        &&& self.workspaces.len() == config.workspace_names.len()
        &&& forall|k: int|
            0 <= k < config.workspace_names.len() ==> {
                let ws = #[trigger] self.workspaces[k];
                &&& ws.name@ == config.workspace_names[k]@
                &&& ws.clients@ == Seq::<WinId>::empty()
                &&& ws.focused == 0
                &&& ws.layouts@ == config.layouts@
                &&& ws.layout_index == 0
                &&& ws.max_main == config.max_main
                &&& ws.ratio == config.ratio
            }
        &&& self.clients.len() == 0
        &&& self.focused_screen == 0
    }

    /// Build the manager: validate the configuration and the outputs, bind
    /// workspace `i` to screen `i`, and start with no clients.
    pub fn new(config: Config, regions: Vec<Region>) -> (r: Result<WindowManager, StartupError>)
        ensures
            match r {
                Result::Ok(wm) => {
                    &&& Self::startup_check(config, regions@) is None
                    &&& wm.initial_state(config, regions@)
                    &&& wm.wf()
                },
                Result::Err(e) => Self::startup_check(config, regions@) == Some(e),
            },
    {
        if regions.len() == 0 {
            return Err(StartupError::NoOutputs);
        }
        if config.workspace_names.len() == 0 {
            return Err(StartupError::NoWorkspaces);
        }
        if regions.len() > config.workspace_names.len() {
            return Err(StartupError::TooFewWorkspaces);
        }
        if config.layouts.len() == 0 {
            return Err(StartupError::NoLayouts);
        }
        if !(1 <= config.max_main && crate::workspace::RATIO_MIN < config.ratio
            && config.ratio < crate::workspace::RATIO_MAX && config.gap_px <= u32::MAX / 2
            && config.border_px <= u32::MAX / 2 - config.gap_px) {
            return Err(StartupError::BadParams);
        }
        let mut i: usize = 0;
        let n = regions.len();
        while i < n
            invariant
                i <= n,
                n == regions@.len(),
                0 < regions@.len() <= config.workspace_names.len(),
                config.layouts.len() > 0,
                1 <= config.max_main,
                crate::workspace::RATIO_MIN < config.ratio < crate::workspace::RATIO_MAX,
                2 * (config.border_px + config.gap_px) <= u32::MAX,
                forall|j: int| 0 <= j < i ==> screen_region_ok(config, #[trigger] regions@[j]),
            decreases n - i,
        {
            let r = regions[i];
            let pad = 2 * (config.border_px + config.gap_px);
            if !(r.w as u64 + r.x as u64 + config.gap_px as u64 <= u32::MAX as u64 && r.h as u64
                + r.y as u64 + config.gap_px as u64 <= u32::MAX as u64 && pad < r.w && pad
                < r.h) {
                proof {
                    assert(!screen_region_ok(config, regions@[i as int]));
                }
                return Err(StartupError::BadRegion);
            }
            i = i + 1;
        }
        let mut screens: Vec<Screen> = Vec::new();
        let mut s: usize = 0;
        while s < n
            invariant
                s <= n,
                n == regions@.len(),
                screens@.len() == s,
                forall|j: int|
                    0 <= j < s ==> #[trigger] screens@[j] == (Screen {
                        region: regions@[j],
                        wix: j as usize,
                    }),
            decreases n - s,
        {
            screens.push(Screen::new(regions[s], s));
            s = s + 1;
        }
        let mut workspaces: Vec<Workspace> = Vec::new();
        let mut k: usize = 0;
        let nk = config.workspace_names.len();
        while k < nk
            invariant
                k <= nk,
                nk == config.workspace_names@.len(),
                config.layouts.len() > 0,
                1 <= config.max_main,
                crate::workspace::RATIO_MIN < config.ratio < crate::workspace::RATIO_MAX,
                workspaces@.len() == k,
                forall|j: int|
                    0 <= j < k ==> {
                        let ws = #[trigger] workspaces@[j];
                        &&& ws.name@ == config.workspace_names@[j]@
                        &&& ws.clients@ == Seq::<WinId>::empty()
                        &&& ws.focused == 0
                        &&& ws.layouts@ == config.layouts@
                        &&& ws.layout_index == 0
                        &&& ws.max_main == config.max_main
                        &&& ws.ratio == config.ratio
                    },
            decreases nk - k,
        {
            let name = config.workspace_names[k].clone();
            let layouts = config.layouts.clone();
            proof {
                assert(layouts@ =~= config.layouts@);
            }
            let ws = Workspace::new(name, layouts, config.max_main, config.ratio);
            workspaces.push(ws);
            k = k + 1;
        }
        let wm = WindowManager { config, screens, workspaces, clients: Vec::new(), focused_screen: 0 };
        Ok(wm)
    }

    /// Reconcile screen `screen`: compute the active layout on its region
    /// and emit one configure request per ring member, in ring order.
    pub fn apply_layout(&self, screen: usize) -> (out: Vec<XRequest>)
        requires
            self.wf(),
            screen < self.screens.len(),
        ensures
            out@ == self.configure_requests(screen as int),
    {
        let region = self.screens[screen].region;
        let wix = self.screens[screen].wix;
        let ws = &self.workspaces[wix];
        let rects = ws.arrange(&region);
        proof {
            layout::lemma_arrange_in_region(
                ws.current_layout(),
                region,
                ws.clients@,
                ws.max_main as int,
                ws.ratio as int,
            );
        }
        let gap = self.config.gap_px;
        let border = self.config.border_px;
        let pad = 2 * (border + gap);
        let mut out: Vec<XRequest> = Vec::new();
        let mut i: usize = 0;
        let n = rects.len();
        while i < n
            invariant
                i <= n,
                n == rects@.len(),
                rects@ == layout::arrange_spec(
                    self.workspace_on_screen(screen as int).current_layout(),
                    self.screens[screen as int].region,
                    self.workspace_on_screen(screen as int).clients@,
                    self.workspace_on_screen(screen as int).max_main as int,
                    self.workspace_on_screen(screen as int).ratio as int,
                ),
                gap == self.config.gap_px,
                border == self.config.border_px,
                pad == padding(self.config),
                region == self.screens[screen as int].region,
                screen < self.screens.len(),
                self.wf(),
                forall|j: int|
                    0 <= j < n ==> layout::rect_in_region(#[trigger] rects@[j].1, region),
                out@.len() == i,
                forall|j: int|
                    0 <= j < i ==> out@[j] == configure_of(
                        self.config,
                        rects@[j].0,
                        rects@[j].1,
                    ),
            decreases n - i,
        {
            let (id, r) = rects[i];
            let w = if pad < r.w {
                r.w - pad
            } else {
                1
            };
            let h = if pad < r.h {
                r.h - pad
            } else {
                1
            };
            out.push(XRequest::Configure { id, x: r.x + gap, y: r.y + gap, w, h, border });
            i = i + 1;
        }
        proof {
            assert(out@ =~= self.configure_requests(screen as int));
        }
        out
    }

    /// The index of the client record carrying `win`, if any.
    fn client_position(&self, win: WinId) -> (r: Option<usize>)
        ensures
            match r {
                Option::Some(p) => p < self.clients.len() && self.clients[p as int].id == win,
                Option::None => !self.knows_client(win),
            },
    {
        let mut j: usize = 0;
        let n = self.clients.len();
        while j < n && self.clients[j].id != win
            invariant
                j <= n,
                n == self.clients.len(),
                forall|m: int| 0 <= m < j ==> (#[trigger] self.clients[m]).id != win,
            decreases n - j,
        {
            j = j + 1;
        }
        if j < n {
            Some(j)
        } else {
            None
        }
    }

    /// Drop every reference to `win`: take it out of whichever ring holds
    /// it and out of the global client list. Unknown ids are a no-op.
    fn remove_client(&mut self, win: WinId)
        requires
            old(self).wf(),
        ensures
            final(self).config == old(self).config,
            final(self).screens == old(self).screens,
            final(self).focused_screen == old(self).focused_screen,
            final(self).clients@ == clients_after_remove(old(self).clients@, win),
            final(self).workspaces@.len() == old(self).workspaces@.len(),
            forall|k: int|
                0 <= k < old(self).workspaces@.len() ==> {
                    let ow = old(self).workspaces@[k];
                    let nw = #[trigger] final(self).workspaces@[k];
                    &&& nw == (Workspace { clients: nw.clients, focused: nw.focused, ..ow })
                    &&& nw.clients@ == crate::workspace::removed_ring(ow.clients@, win)
                    &&& nw.focused == crate::workspace::removed_ring_focus(
                        ow.clients@,
                        ow.focused as int,
                        win,
                    )
                },
            !old(self).knows_client(win) ==> final(self).clients@ == old(self).clients@
                && final(self).workspaces@ == old(self).workspaces@,
            !final(self).knows_client(win),
            forall|k: int|
                0 <= k < final(self).workspaces@.len() ==> !(#[trigger] final(self).ring(
                    k,
                )).contains(win),
            final(self).wf(),
    {
        let mut k: usize = 0;
        let nk = self.workspaces.len();
        while k < nk
            invariant
                k <= nk,
                nk == old(self).workspaces@.len(),
                old(self).wf(),
                self.config == old(self).config,
                self.screens == old(self).screens,
                self.clients == old(self).clients,
                self.focused_screen == old(self).focused_screen,
                self.workspaces@.len() == nk,
                forall|j: int|
                    0 <= j < k ==> {
                        let ow = old(self).workspaces@[j];
                        let nw = #[trigger] self.workspaces@[j];
                        &&& nw == (Workspace { clients: nw.clients, focused: nw.focused, ..ow })
                        &&& nw.clients@ == crate::workspace::removed_ring(ow.clients@, win)
                        &&& nw.focused == crate::workspace::removed_ring_focus(
                            ow.clients@,
                            ow.focused as int,
                            win,
                        )
                        &&& nw.wf()
                        &&& nw.clients@.no_duplicates()
                        &&& !nw.clients@.contains(win)
                        &&& (!ow.clients@.contains(win) ==> nw == ow)
                    },
                forall|j: int| k <= j < nk ==> self.workspaces@[j] == old(self).workspaces@[j],
            decreases nk - k,
        {
            proof {
                assert(old(self).workspaces@[k as int].wf());
            }
            let ws = &mut self.workspaces[k];
            ws.remove_client(win);
            k = k + 1;
        }
        let ghost mid = *self;
        let pos = self.client_position(win);
        match pos {
            Option::Some(p) => {
                proof {
                    let c0 = client_index(old(self).clients@, win);
                    assert(old(self).clients@[p as int].id == win);
                    if c0 != p as int {
                        assert(old(self).clients@[c0].id == old(self).clients@[p as int].id);
                    }
                }
                self.clients.remove(p);
            },
            Option::None => {
                proof {
                    assert(!(exists|c: int|
                        0 <= c < old(self).clients@.len() && old(self).clients@[c].id == win));
                }
            },
        }
        proof {
            let pre = *old(self);
            let post = *self;
            assert forall|j: int| 0 <= j < nk implies !(#[trigger] post.ring(j)).contains(win) by {
                crate::workspace::lemma_removed_ring(pre.ring(j), win);
            }
            if !pre.knows_client(win) {
                assert forall|j: int|
                    0 <= j < nk implies post.workspaces@[j] == pre.workspaces@[j] by {
                    assert(!pre.ring(j).contains(win)) by {
                        if pre.ring(j).contains(win) {
                            let i = choose|i: int|
                                0 <= i < pre.ring(j).len() && pre.ring(j)[i] == win;
                            assert(pre.knows_tiled_client(pre.ring(j)[i]));
                        }
                    }
                }
                assert(post.workspaces@ =~= pre.workspaces@);
            }
            // ids are unique, so dropping the record at the found position
            // is dropping the record `client_index` names
            assert(post.clients@ == clients_after_remove(pre.clients@, win));
            assert(!post.knows_client(win)) by {
                if exists|c: int| 0 <= c < post.clients@.len() && post.clients@[c].id == win {
                    let c = choose|c: int|
                        0 <= c < post.clients@.len() && post.clients@[c].id == win;
                    if pre.knows_client(win) {
                        let p = client_index(pre.clients@, win);
                        if c < p {
                            assert(pre.clients@[c].id == win);
                        } else {
                            assert(pre.clients@[c + 1].id == win);
                        }
                    }
                }
            }
            assert(post.wf()) by {
                assert forall|a: int, b: int|
                    0 <= a < post.clients.len() && 0 <= b < post.clients.len() && a != b implies (
                #[trigger] post.clients[a]).id != (#[trigger] post.clients[b]).id by {
                    if pre.knows_client(win) {
                        let p = client_index(pre.clients@, win);
                        let a0 = if a < p {
                            a
                        } else {
                            a + 1
                        };
                        let b0 = if b < p {
                            b
                        } else {
                            b + 1
                        };
                        assert(post.clients[a] == pre.clients[a0] && post.clients[b]
                            == pre.clients[b0] && a0 != b0);
                    }
                }
                assert forall|k1: int, i: int|
                    0 <= k1 < post.workspaces.len() && 0 <= i
                        < post.ring(k1).len() implies post.knows_tiled_client(
                    #[trigger] post.ring(k1)[i],
                ) by {
                    let x = post.ring(k1)[i];
                    crate::workspace::lemma_removed_ring(pre.ring(k1), win);
                    assert(post.ring(k1).contains(x));
                    assert(pre.ring(k1).contains(x));
                    let i0 = choose|i0: int|
                        0 <= i0 < pre.ring(k1).len() && pre.ring(k1)[i0] == x;
                    assert(pre.knows_tiled_client(pre.ring(k1)[i0]));
                    let c = choose|c: int|
                        0 <= c < pre.clients.len() && pre.clients[c].id == x
                            && !pre.clients[c].floating;
                    if pre.knows_client(win) {
                        let p = client_index(pre.clients@, win);
                        assert(x != win);
                        assert(c != p);
                        let c1 = if c < p {
                            c
                        } else {
                            c - 1
                        };
                        assert(post.clients[c1] == pre.clients[c]);
                        assert(post.clients[c1].id == x && !post.clients[c1].floating);
                    }
                }
                assert forall|k1: int, i1: int, k2: int, i2: int|
                    0 <= k1 < post.workspaces.len() && 0 <= i1 < post.ring(k1).len() && 0 <= k2
                        < post.workspaces.len() && 0 <= i2 < post.ring(k2).len() && k1
                        != k2 implies (#[trigger] post.ring(k1)[i1]) != (#[trigger] post.ring(
                    k2,
                )[i2]) by {
                    crate::workspace::lemma_removed_ring(pre.ring(k1), win);
                    crate::workspace::lemma_removed_ring(pre.ring(k2), win);
                    let x = post.ring(k1)[i1];
                    let y = post.ring(k2)[i2];
                    if x == y {
                        assert(post.ring(k1).contains(x) && post.ring(k2).contains(y));
                        assert(pre.ring(k1).contains(x) && pre.ring(k2).contains(y));
                        let j1 = choose|j: int|
                            0 <= j < pre.ring(k1).len() && pre.ring(k1)[j] == x;
                        let j2 = choose|j: int|
                            0 <= j < pre.ring(k2).len() && pre.ring(k2)[j] == y;
                        assert(pre.ring(k1)[j1] != pre.ring(k2)[j2]);
                    }
                }
            }
        }
    }

    /// A window was destroyed: forget it everywhere and reconcile the
    /// focused screen. Idempotent: an unknown window changes nothing.
    pub fn handle_destroy_notify(&mut self, win: WinId) -> (out: Vec<XRequest>)
        requires
            old(self).wf(),
        ensures
            final(self).config == old(self).config,
            final(self).screens == old(self).screens,
            final(self).focused_screen == old(self).focused_screen,
            final(self).clients@ == clients_after_remove(old(self).clients@, win),
            final(self).workspaces@.len() == old(self).workspaces@.len(),
            forall|k: int|
                0 <= k < old(self).workspaces@.len() ==> {
                    let ow = old(self).workspaces@[k];
                    let nw = #[trigger] final(self).workspaces@[k];
                    &&& nw == (Workspace { clients: nw.clients, focused: nw.focused, ..ow })
                    &&& nw.clients@ == crate::workspace::removed_ring(ow.clients@, win)
                    &&& nw.focused == crate::workspace::removed_ring_focus(
                        ow.clients@,
                        ow.focused as int,
                        win,
                    )
                },
            !old(self).knows_client(win) ==> final(self).clients@ == old(self).clients@
                && final(self).workspaces@ == old(self).workspaces@,
            !final(self).knows_client(win),
            out@ == final(self).configure_requests(old(self).focused_screen as int),
            final(self).wf(),
    {
        self.remove_client(win);
        self.apply_layout(self.focused_screen)
    }

    /// A new window was mapped: track it (floating when its class is
    /// configured so), put a non-floating window into the focused screen's
    /// workspace ring, subscribe to its crossing events, and reconcile. A
    /// window already tracked is left alone, keeping ids unique.
    pub fn handle_map_notify(&mut self, win: WinId, wm_class: String) -> (out: Vec<XRequest>)
        requires
            old(self).wf(),
        ensures
            old(self).knows_client(win) ==> *final(self) == *old(self) && out@ == Seq::<
                XRequest,
            >::empty(),
            !old(self).knows_client(win) ==> {
                let floating = crate::config::class_floats(old(self).config, wm_class@);
                let fwix = old(self).screens[old(self).focused_screen as int].wix as int;
                &&& final(self).clients@ == old(self).clients@.push(
                    Client { id: win, wm_class, floating, focused: false },
                )
                &&& final(self).workspaces@.len() == old(self).workspaces@.len()
                &&& (floating ==> final(self).workspaces@ == old(self).workspaces@)
                &&& (!floating ==> {
                    let ow = old(self).workspaces@[fwix];
                    let nw = final(self).workspaces@[fwix];
                    &&& nw == (Workspace { clients: nw.clients, focused: nw.focused, ..ow })
                    &&& nw.clients@ == ow.clients@.push(win)
                    &&& nw.focused == ow.clients@.len()
                    &&& forall|k: int|
                        0 <= k < old(self).workspaces@.len() && k != fwix
                            ==> #[trigger] final(self).workspaces@[k] == old(self).workspaces@[k]
                })
                &&& out@ == seq![XRequest::Subscribe(win)] + final(self).configure_requests(
                    old(self).focused_screen as int,
                )
            },
            final(self).config == old(self).config,
            final(self).screens == old(self).screens,
            final(self).focused_screen == old(self).focused_screen,
            final(self).wf(),
    {
        match self.client_position(win) {
            Option::Some(_) => {
                return Vec::new();
            },
            Option::None => {},
        }
        let floating = crate::config::is_floating_class(&self.config.floating_classes, &wm_class);
        let c = Client::new(win, wm_class, floating);
        self.clients.push(c);
        if !floating {
            let wix = self.screens[self.focused_screen].wix;
            proof {
                assert(old(self).workspaces@[wix as int].wf());
            }
            let ws = &mut self.workspaces[wix];
            ws.add_client(win);
        }
        proof {
            let pre = *old(self);
            let post = *self;
            let fwix = pre.screens[pre.focused_screen as int].wix as int;
            assert forall|j: int|
                0 <= j < pre.workspaces@.len() implies !(#[trigger] pre.ring(j)).contains(win) by {
                if pre.ring(j).contains(win) {
                    let i = choose|i: int| 0 <= i < pre.ring(j).len() && pre.ring(j)[i] == win;
                    assert(pre.knows_tiled_client(pre.ring(j)[i]));
                }
            }
            if floating {
                assert(post.workspaces@ =~= pre.workspaces@);
            }
            assert(post.wf()) by {
                assert forall|a: int, b: int|
                    0 <= a < post.clients.len() && 0 <= b < post.clients.len() && a != b implies (
                #[trigger] post.clients[a]).id != (#[trigger] post.clients[b]).id by {
                    if a < pre.clients@.len() && b < pre.clients@.len() {
                        assert(pre.clients[a].id != pre.clients[b].id);
                    }
                }
                assert forall|k: int|
                    0 <= k < post.workspaces.len() implies (#[trigger] post.workspaces[k]).wf()
                        && post.workspaces[k].clients@.no_duplicates() by {
                    if !(floating || k != fwix) {
                        assert(post.ring(k) == pre.ring(k).push(win));
                        assert(!pre.ring(k).contains(win));
                        assert(forall|i: int|
                            0 <= i < pre.ring(k).len() ==> pre.ring(k)[i] != win);
                        assert(post.ring(k).no_duplicates());
                    }
                }
                assert forall|k: int, i: int|
                    0 <= k < post.workspaces.len() && 0 <= i
                        < post.ring(k).len() implies post.knows_tiled_client(
                    #[trigger] post.ring(k)[i],
                ) by {
                    let x = post.ring(k)[i];
                    if !floating && k == fwix && i == pre.ring(k).len() {
                        assert(x == win);
                        assert(post.clients[pre.clients@.len() as int].id == win);
                    } else {
                        assert(x == pre.ring(k)[i]);
                        assert(pre.knows_tiled_client(x));
                        let cx = choose|cx: int|
                            0 <= cx < pre.clients.len() && pre.clients[cx].id == x
                                && !pre.clients[cx].floating;
                        assert(post.clients[cx].id == x && !post.clients[cx].floating);
                    }
                }
                assert forall|k1: int, i1: int, k2: int, i2: int|
                    0 <= k1 < post.workspaces.len() && 0 <= i1 < post.ring(k1).len() && 0 <= k2
                        < post.workspaces.len() && 0 <= i2 < post.ring(k2).len() && k1
                        != k2 implies (#[trigger] post.ring(k1)[i1]) != (#[trigger] post.ring(
                    k2,
                )[i2]) by {
                    let x = post.ring(k1)[i1];
                    let y = post.ring(k2)[i2];
                    if x == y {
                        if !floating && k1 == fwix && i1 == pre.ring(k1).len() {
                            assert(x == win);
                            assert(pre.ring(k2).contains(y));
                        } else if !floating && k2 == fwix && i2 == pre.ring(k2).len() {
                            assert(y == win);
                            assert(pre.ring(k1).contains(x));
                        } else {
                            assert(pre.ring(k1)[i1] != pre.ring(k2)[i2]);
                        }
                    }
                }
            }
        }
        let mut out: Vec<XRequest> = Vec::new();
        out.push(XRequest::Subscribe(win));
        let mut configs = self.apply_layout(self.focused_screen);
        out.append(&mut configs);
        proof {
            assert(out@ =~= seq![XRequest::Subscribe(win)] + self.configure_requests(
                old(self).focused_screen as int,
            ));
        }
        out
    }

    /// Pointer crossing into `win`: focus the matching client and unfocus
    /// every other known client, in client-list order.
    pub fn handle_enter_notify(&mut self, win: WinId) -> (out: Vec<XRequest>)
        requires
            old(self).wf(),
        ensures
            final(self).config == old(self).config,
            final(self).screens == old(self).screens,
            final(self).workspaces == old(self).workspaces,
            final(self).focused_screen == old(self).focused_screen,
            final(self).clients@.len() == old(self).clients@.len(),
            forall|j: int|
                0 <= j < old(self).clients@.len() ==> #[trigger] final(self).clients@[j] == (Client {
                    focused: old(self).clients@[j].id == win,
                    ..old(self).clients@[j]
                }),
            out@ == focus_requests(old(self).clients@, win),
            final(self).wf(),
    {
        let mut out: Vec<XRequest> = Vec::new();
        let n = self.clients.len();
        let mut j: usize = 0;
        while j < n
            invariant
                j <= n,
                n == old(self).clients@.len(),
                self.clients@.len() == n,
                self.config == old(self).config,
                self.screens == old(self).screens,
                self.workspaces == old(self).workspaces,
                self.focused_screen == old(self).focused_screen,
                forall|m: int|
                    0 <= m < j ==> #[trigger] self.clients@[m] == (Client {
                        focused: old(self).clients@[m].id == win,
                        ..old(self).clients@[m]
                    }),
                forall|m: int| j <= m < n ==> #[trigger] self.clients@[m] == old(self).clients@[m],
                out@.len() == j,
                forall|m: int|
                    0 <= m < j ==> out@[m] == focus_requests(old(self).clients@, win)[m],
            decreases n - j,
        {
            let c = &mut self.clients[j];
            if c.id == win {
                c.focus();
                out.push(XRequest::Focus(win));
            } else {
                let cid = c.id;
                c.unfocus();
                out.push(XRequest::Unfocus(cid));
            }
            j = j + 1;
        }
        proof {
            assert(out@ =~= focus_requests(old(self).clients@, win));
            lemma_wf_with_same_structure(*old(self), *self);
        }
        out
    }

    /// Pointer leaving `win`: unfocus the matching client, if known.
    pub fn handle_leave_notify(&mut self, win: WinId) -> (out: Vec<XRequest>)
        requires
            old(self).wf(),
        ensures
            final(self).config == old(self).config,
            final(self).screens == old(self).screens,
            final(self).workspaces == old(self).workspaces,
            final(self).focused_screen == old(self).focused_screen,
            final(self).clients@.len() == old(self).clients@.len(),
            forall|j: int|
                0 <= j < old(self).clients@.len() ==> #[trigger] final(self).clients@[j] == (Client {
                    focused: if old(self).clients@[j].id == win {
                        false
                    } else {
                        old(self).clients@[j].focused
                    },
                    ..old(self).clients@[j]
                }),
            out@ == if old(self).knows_client(win) {
                seq![XRequest::Unfocus(win)]
            } else {
                Seq::<XRequest>::empty()
            },
            final(self).wf(),
    {
        let mut out: Vec<XRequest> = Vec::new();
        let n = self.clients.len();
        let mut j: usize = 0;
        while j < n
            invariant
                j <= n,
                n == old(self).clients@.len(),
                self.clients@.len() == n,
                old(self).wf(),
                self.config == old(self).config,
                self.screens == old(self).screens,
                self.workspaces == old(self).workspaces,
                self.focused_screen == old(self).focused_screen,
                forall|m: int|
                    0 <= m < j ==> #[trigger] self.clients@[m] == (Client {
                        focused: if old(self).clients@[m].id == win {
                            false
                        } else {
                            old(self).clients@[m].focused
                        },
                        ..old(self).clients@[m]
                    }),
                forall|m: int| j <= m < n ==> #[trigger] self.clients@[m] == old(self).clients@[m],
                out@ == if exists|m: int| 0 <= m < j && old(self).clients@[m].id == win {
                    seq![XRequest::Unfocus(win)]
                } else {
                    Seq::<XRequest>::empty()
                },
            decreases n - j,
        {
            let c = &mut self.clients[j];
            if c.id == win {
                proof {
                    assert(forall|m: int|
                        0 <= m < j ==> old(self).clients@[m].id != old(self).clients@[j as int].id);
                    assert(old(self).clients@[j as int].id == win);
                }
                c.unfocus();
                out.push(XRequest::Unfocus(win));
            }
            j = j + 1;
        }
        proof {
            if old(self).knows_client(win) {
                let c = choose|c: int|
                    0 <= c < old(self).clients@.len() && old(self).clients@[c].id == win;
                assert(exists|m: int| 0 <= m < n && old(self).clients@[m].id == win);
            }
            lemma_wf_with_same_structure(*old(self), *self);
        }
        out
    }

    /// The workspace shown on screen `screen_index`.
    pub fn workspace_for_screen(&self, screen_index: usize) -> (ws: &Workspace)
        requires
            self.wf(),
            screen_index < self.screens.len(),
        ensures
            *ws == self.workspace_on_screen(screen_index as int),
    {
        &self.workspaces[self.screens[screen_index].wix]
    }

    /// The focused client id on the focused screen, if any.
    pub fn focused_client(&self) -> (r: Option<WinId>)
        requires
            self.wf(),
        ensures
            r == self.workspace_on_screen(self.focused_screen as int).focused_client_spec(),
    {
        let wix = self.screens[self.focused_screen].wix;
        proof {
            assert(self.workspaces@[wix as int].wf());
        }
        self.workspaces[wix].focused_client()
    }

    /// Move the ring focus of the focused screen's workspace one step and
    /// hand the focus over on the X side: unfocus the previous holder,
    /// focus the new one.
    fn cycle_client(&mut self, direction: crate::data_types::Direction) -> (out: Vec<XRequest>)
        requires
            old(self).wf(),
        ensures
            final(self).config == old(self).config,
            final(self).screens == old(self).screens,
            final(self).focused_screen == old(self).focused_screen,
            final(self).clients@.len() == old(self).clients@.len(),
            final(self).workspaces@.len() == old(self).workspaces@.len(),
            ({
                let fwix = old(self).screens[old(self).focused_screen as int].wix as int;
                let ow = old(self).workspaces@[fwix];
                if ow.clients@.len() < 2 {
                    &&& final(self).workspaces@ == old(self).workspaces@
                    &&& final(self).clients@ == old(self).clients@
                    &&& out@ == Seq::<XRequest>::empty()
                } else {
                    let f = ow.focused as int;
                    let nf = crate::workspace::cycled_index(ow.clients@.len() as int, f, direction);
                    let prev = ow.clients@[f];
                    let cur = ow.clients@[nf];
                    &&& final(self).workspaces@[fwix] == (Workspace {
                        focused: final(self).workspaces@[fwix].focused,
                        ..ow
                    })
                    &&& final(self).workspaces@[fwix].focused == nf
                    &&& forall|k: int|
                        0 <= k < old(self).workspaces@.len() && k != fwix
                            ==> #[trigger] final(self).workspaces@[k] == old(self).workspaces@[k]
                    &&& forall|j: int|
                        0 <= j < old(self).clients@.len() ==> #[trigger] final(self).clients@[j]
                            == (Client {
                            focused: if old(self).clients@[j].id == prev {
                                false
                            } else if old(self).clients@[j].id == cur {
                                true
                            } else {
                                old(self).clients@[j].focused
                            },
                            ..old(self).clients@[j]
                        })
                    &&& out@ == cycle_focus_requests(old(self).clients@, prev, cur)
                }
            }),
            final(self).wf(),
    {
        let wix = self.screens[self.focused_screen].wix;
        proof {
            assert(old(self).workspaces@[wix as int].wf());
        }
        let ws = &mut self.workspaces[wix];
        let cycled = ws.cycle_client(direction);
        match cycled {
            Option::None => {
                proof {
                    assert(self.workspaces@ =~= old(self).workspaces@);
                    lemma_wf_with_same_structure(*old(self), *self);
                }
                Vec::new()
            },
            Option::Some((previous, current)) => {
                let ghost mid = *self;
                let mut out: Vec<XRequest> = Vec::new();
                let n = self.clients.len();
                let mut j: usize = 0;
                proof {
                    assert(old(self).clients@.skip(0) =~= old(self).clients@);
                    assert(out@ + cycle_focus_requests(old(self).clients@, previous, current)
                        =~= cycle_focus_requests(old(self).clients@, previous, current));
                }
                while j < n
                    invariant
                        j <= n,
                        n == old(self).clients@.len(),
                        self.clients@.len() == n,
                        self.config == old(self).config,
                        self.screens == old(self).screens,
                        self.workspaces == mid.workspaces,
                        self.focused_screen == old(self).focused_screen,
                        forall|m: int|
                            0 <= m < j ==> #[trigger] self.clients@[m] == (Client {
                                focused: if old(self).clients@[m].id == previous {
                                    false
                                } else if old(self).clients@[m].id == current {
                                    true
                                } else {
                                    old(self).clients@[m].focused
                                },
                                ..old(self).clients@[m]
                            }),
                        forall|m: int|
                            j <= m < n ==> #[trigger] self.clients@[m] == old(self).clients@[m],
                        out@ + cycle_focus_requests(old(self).clients@.skip(j as int), previous, current)
                            == cycle_focus_requests(old(self).clients@, previous, current),
                    decreases n - j,
                {
                    proof {
                        assert(old(self).clients@.skip(j as int).drop_first() =~= old(
                            self,
                        ).clients@.skip(j as int + 1));
                        assert(old(self).clients@.skip(j as int)[0] == old(self).clients@[j as int]);
                    }
                    let c = &mut self.clients[j];
                    if c.id == previous {
                        c.unfocus();
                        out.push(XRequest::Unfocus(previous));
                    } else if c.id == current {
                        c.focus();
                        out.push(XRequest::Focus(current));
                    }
                    j = j + 1;
                }
                proof {
                    assert(old(self).clients@.skip(n as int) =~= Seq::<Client>::empty());
                    assert(out@ + Seq::<XRequest>::empty() =~= out@);
                    lemma_wf_with_same_structure(*old(self), *self);
                }
                out
            },
        }
    }

    /// Move the ring focus of the focused workspace one step forward,
    /// unfocusing the previous holder and focusing the new one.
    pub fn next_client(&mut self) -> (out: Vec<XRequest>)
        requires
            old(self).wf(),
        ensures
            final(self).config == old(self).config,
            final(self).screens == old(self).screens,
            final(self).focused_screen == old(self).focused_screen,
            final(self).clients@.len() == old(self).clients@.len(),
            final(self).workspaces@.len() == old(self).workspaces@.len(),
            ({
                let fwix = old(self).screens[old(self).focused_screen as int].wix as int;
                let ow = old(self).workspaces@[fwix];
                if ow.clients@.len() < 2 {
                    &&& final(self).workspaces@ == old(self).workspaces@
                    &&& final(self).clients@ == old(self).clients@
                    &&& out@ == Seq::<XRequest>::empty()
                } else {
                    let f = ow.focused as int;
                    let nf = crate::workspace::cycled_index(
                        ow.clients@.len() as int,
                        f,
                        crate::data_types::Direction::Forward,
                    );
                    let prev = ow.clients@[f];
                    let cur = ow.clients@[nf];
                    &&& final(self).workspaces@[fwix] == (Workspace {
                        focused: final(self).workspaces@[fwix].focused,
                        ..ow
                    })
                    &&& final(self).workspaces@[fwix].focused == nf
                    &&& forall|k: int|
                        0 <= k < old(self).workspaces@.len() && k != fwix
                            ==> #[trigger] final(self).workspaces@[k] == old(self).workspaces@[k]
                    &&& out@ == cycle_focus_requests(old(self).clients@, prev, cur)
                }
            }),
            final(self).wf(),
    {
        self.cycle_client(crate::data_types::Direction::Forward)
    }

    /// Move the ring focus of the focused workspace one step backward,
    /// unfocusing the previous holder and focusing the new one.
    pub fn previous_client(&mut self) -> (out: Vec<XRequest>)
        requires
            old(self).wf(),
        ensures
            final(self).config == old(self).config,
            final(self).screens == old(self).screens,
            final(self).focused_screen == old(self).focused_screen,
            final(self).clients@.len() == old(self).clients@.len(),
            final(self).workspaces@.len() == old(self).workspaces@.len(),
            ({
                let fwix = old(self).screens[old(self).focused_screen as int].wix as int;
                let ow = old(self).workspaces@[fwix];
                if ow.clients@.len() < 2 {
                    &&& final(self).workspaces@ == old(self).workspaces@
                    &&& final(self).clients@ == old(self).clients@
                    &&& out@ == Seq::<XRequest>::empty()
                } else {
                    let f = ow.focused as int;
                    let nf = crate::workspace::cycled_index(
                        ow.clients@.len() as int,
                        f,
                        crate::data_types::Direction::Backward,
                    );
                    let prev = ow.clients@[f];
                    let cur = ow.clients@[nf];
                    &&& final(self).workspaces@[fwix] == (Workspace {
                        focused: final(self).workspaces@[fwix].focused,
                        ..ow
                    })
                    &&& final(self).workspaces@[fwix].focused == nf
                    &&& forall|k: int|
                        0 <= k < old(self).workspaces@.len() && k != fwix
                            ==> #[trigger] final(self).workspaces@[k] == old(self).workspaces@[k]
                    &&& out@ == cycle_focus_requests(old(self).clients@, prev, cur)
                }
            }),
            final(self).wf(),
    {
        self.cycle_client(crate::data_types::Direction::Backward)
    }

    /// Rotate the focused workspace's layout forward and reconcile.
    pub fn next_layout(&mut self) -> (out: Vec<XRequest>)
        requires
            old(self).wf(),
        ensures
            final(self).config == old(self).config,
            final(self).screens == old(self).screens,
            final(self).focused_screen == old(self).focused_screen,
            final(self).clients == old(self).clients,
            final(self).workspaces@.len() == old(self).workspaces@.len(),
            ({
                let fwix = old(self).screens[old(self).focused_screen as int].wix as int;
                let ow = old(self).workspaces@[fwix];
                let nw = final(self).workspaces@[fwix];
                &&& (forall|k: int|
                    0 <= k < old(self).workspaces@.len() && k != fwix
                        ==> #[trigger] final(self).workspaces@[k] == old(self).workspaces@[k])
                &&& nw == (Workspace { layout_index: nw.layout_index, ..ow })
                &&& nw.layout_index == crate::workspace::cycled_index(ow.layouts.len() as int, ow.layout_index as int, crate::data_types::Direction::Forward)
            }),
            out@ == final(self).configure_requests(old(self).focused_screen as int),
            final(self).wf(),
    {
        let wix = self.screens[self.focused_screen].wix;
        proof {
            assert(old(self).workspaces@[wix as int].wf());
        }
        let ws = &mut self.workspaces[wix];
        ws.cycle_layout(crate::data_types::Direction::Forward);
        proof {
            lemma_wf_with_same_structure(*old(self), *self);
        }
        self.apply_layout(self.focused_screen)
    }

    /// Rotate the focused workspace's layout backward and reconcile.
    pub fn previous_layout(&mut self) -> (out: Vec<XRequest>)
        requires
            old(self).wf(),
        ensures
            final(self).config == old(self).config,
            final(self).screens == old(self).screens,
            final(self).focused_screen == old(self).focused_screen,
            final(self).clients == old(self).clients,
            final(self).workspaces@.len() == old(self).workspaces@.len(),
            ({
                let fwix = old(self).screens[old(self).focused_screen as int].wix as int;
                let ow = old(self).workspaces@[fwix];
                let nw = final(self).workspaces@[fwix];
                &&& (forall|k: int|
                    0 <= k < old(self).workspaces@.len() && k != fwix
                        ==> #[trigger] final(self).workspaces@[k] == old(self).workspaces@[k])
                &&& nw == (Workspace { layout_index: nw.layout_index, ..ow })
                &&& nw.layout_index == crate::workspace::cycled_index(ow.layouts.len() as int, ow.layout_index as int, crate::data_types::Direction::Backward)
            }),
            out@ == final(self).configure_requests(old(self).focused_screen as int),
            final(self).wf(),
    {
        let wix = self.screens[self.focused_screen].wix;
        proof {
            assert(old(self).workspaces@[wix as int].wf());
        }
        let ws = &mut self.workspaces[wix];
        ws.cycle_layout(crate::data_types::Direction::Backward);
        proof {
            lemma_wf_with_same_structure(*old(self), *self);
        }
        self.apply_layout(self.focused_screen)
    }

    /// Grow the main column of the focused workspace by one client and
    /// reconcile.
    pub fn inc_main(&mut self) -> (out: Vec<XRequest>)
        requires
            old(self).wf(),
        ensures
            final(self).config == old(self).config,
            final(self).screens == old(self).screens,
            final(self).focused_screen == old(self).focused_screen,
            final(self).clients == old(self).clients,
            final(self).workspaces@.len() == old(self).workspaces@.len(),
            ({
                let fwix = old(self).screens[old(self).focused_screen as int].wix as int;
                let ow = old(self).workspaces@[fwix];
                let nw = final(self).workspaces@[fwix];
                &&& (forall|k: int|
                    0 <= k < old(self).workspaces@.len() && k != fwix
                        ==> #[trigger] final(self).workspaces@[k] == old(self).workspaces@[k])
                &&& nw == (Workspace { max_main: nw.max_main, ..ow })
                &&& nw.max_main == (if ow.max_main < u32::MAX {
                    ow.max_main + 1
                } else {
                    ow.max_main as int
                }) && nw.max_main >= 1
            }),
            out@ == final(self).configure_requests(old(self).focused_screen as int),
            final(self).wf(),
    {
        let wix = self.screens[self.focused_screen].wix;
        proof {
            assert(old(self).workspaces@[wix as int].wf());
        }
        let ws = &mut self.workspaces[wix];
        ws.update_max_main(crate::data_types::Change::More);
        proof {
            lemma_wf_with_same_structure(*old(self), *self);
        }
        self.apply_layout(self.focused_screen)
    }

    /// Shrink the main column of the focused workspace by one client, never
    /// below one, and reconcile.
    pub fn dec_main(&mut self) -> (out: Vec<XRequest>)
        requires
            old(self).wf(),
        ensures
            final(self).config == old(self).config,
            final(self).screens == old(self).screens,
            final(self).focused_screen == old(self).focused_screen,
            final(self).clients == old(self).clients,
            final(self).workspaces@.len() == old(self).workspaces@.len(),
            ({
                let fwix = old(self).screens[old(self).focused_screen as int].wix as int;
                let ow = old(self).workspaces@[fwix];
                let nw = final(self).workspaces@[fwix];
                &&& (forall|k: int|
                    0 <= k < old(self).workspaces@.len() && k != fwix
                        ==> #[trigger] final(self).workspaces@[k] == old(self).workspaces@[k])
                &&& nw == (Workspace { max_main: nw.max_main, ..ow })
                &&& nw.max_main == (if ow.max_main > 1 {
                    ow.max_main - 1
                } else {
                    1int
                }) && nw.max_main >= 1
            }),
            out@ == final(self).configure_requests(old(self).focused_screen as int),
            final(self).wf(),
    {
        let wix = self.screens[self.focused_screen].wix;
        proof {
            assert(old(self).workspaces@[wix as int].wf());
        }
        let ws = &mut self.workspaces[wix];
        ws.update_max_main(crate::data_types::Change::Less);
        proof {
            lemma_wf_with_same_structure(*old(self), *self);
        }
        self.apply_layout(self.focused_screen)
    }

    /// Widen the main column of the focused workspace by one ratio step,
    /// staying inside the open ratio range, and reconcile.
    pub fn inc_ratio(&mut self) -> (out: Vec<XRequest>)
        requires
            old(self).wf(),
        ensures
            final(self).config == old(self).config,
            final(self).screens == old(self).screens,
            final(self).focused_screen == old(self).focused_screen,
            final(self).clients == old(self).clients,
            final(self).workspaces@.len() == old(self).workspaces@.len(),
            ({
                let fwix = old(self).screens[old(self).focused_screen as int].wix as int;
                let ow = old(self).workspaces@[fwix];
                let nw = final(self).workspaces@[fwix];
                &&& (forall|k: int|
                    0 <= k < old(self).workspaces@.len() && k != fwix
                        ==> #[trigger] final(self).workspaces@[k] == old(self).workspaces@[k])
                &&& nw == (Workspace { ratio: nw.ratio, ..ow })
                &&& nw.ratio == (if ow.ratio + crate::workspace::RATIO_STEP < crate::workspace::RATIO_MAX {
                    ow.ratio + crate::workspace::RATIO_STEP
                } else {
                    ow.ratio as int
                }) && crate::workspace::RATIO_MIN < nw.ratio < crate::workspace::RATIO_MAX
            }),
            out@ == final(self).configure_requests(old(self).focused_screen as int),
            final(self).wf(),
    {
        let wix = self.screens[self.focused_screen].wix;
        proof {
            assert(old(self).workspaces@[wix as int].wf());
        }
        let ws = &mut self.workspaces[wix];
        ws.update_main_ratio(crate::data_types::Change::More);
        proof {
            lemma_wf_with_same_structure(*old(self), *self);
        }
        self.apply_layout(self.focused_screen)
    }

    /// Narrow the main column of the focused workspace by one ratio step,
    /// staying inside the open ratio range, and reconcile.
    pub fn dec_ratio(&mut self) -> (out: Vec<XRequest>)
        requires
            old(self).wf(),
        ensures
            final(self).config == old(self).config,
            final(self).screens == old(self).screens,
            final(self).focused_screen == old(self).focused_screen,
            final(self).clients == old(self).clients,
            final(self).workspaces@.len() == old(self).workspaces@.len(),
            ({
                let fwix = old(self).screens[old(self).focused_screen as int].wix as int;
                let ow = old(self).workspaces@[fwix];
                let nw = final(self).workspaces@[fwix];
                &&& (forall|k: int|
                    0 <= k < old(self).workspaces@.len() && k != fwix
                        ==> #[trigger] final(self).workspaces@[k] == old(self).workspaces@[k])
                &&& nw == (Workspace { ratio: nw.ratio, ..ow })
                &&& nw.ratio == (if ow.ratio > crate::workspace::RATIO_MIN + crate::workspace::RATIO_STEP {
                    ow.ratio - crate::workspace::RATIO_STEP
                } else {
                    ow.ratio as int
                }) && crate::workspace::RATIO_MIN < nw.ratio < crate::workspace::RATIO_MAX
            }),
            out@ == final(self).configure_requests(old(self).focused_screen as int),
            final(self).wf(),
    {
        let wix = self.screens[self.focused_screen].wix;
        proof {
            assert(old(self).workspaces@[wix as int].wf());
        }
        let ws = &mut self.workspaces[wix];
        ws.update_main_ratio(crate::data_types::Change::Less);
        proof {
            lemma_wf_with_same_structure(*old(self), *self);
        }
        self.apply_layout(self.focused_screen)
    }

    /// Ask the focused client to close itself politely via
    /// `WM_DELETE_WINDOW`, forget it locally, and reconcile. With no
    /// focused client this is a no-op. Removal is idempotent, so the
    /// `DestroyNotify` a well-behaved client answers with changes nothing
    /// more.
    pub fn kill_client(&mut self) -> (out: Vec<XRequest>)
        requires
            old(self).wf(),
        ensures
            final(self).config == old(self).config,
            final(self).screens == old(self).screens,
            final(self).focused_screen == old(self).focused_screen,
            ({
                let fw = old(self).workspace_on_screen(old(self).focused_screen as int);
                match fw.focused_client_spec() {
                    Option::None => {
                        &&& *final(self) == *old(self)
                        &&& out@ == Seq::<XRequest>::empty()
                    },
                    Option::Some(id) => {
                        &&& final(self).clients@ == clients_after_remove(old(self).clients@, id)
                        &&& final(self).workspaces@.len() == old(self).workspaces@.len()
                        &&& (forall|k: int|
                            0 <= k < old(self).workspaces@.len() ==> {
                                let ow = old(self).workspaces@[k];
                                let nw = #[trigger] final(self).workspaces@[k];
                                &&& nw == (Workspace {
                                    clients: nw.clients,
                                    focused: nw.focused,
                                    ..ow
                                })
                                &&& nw.clients@ == crate::workspace::removed_ring(ow.clients@, id)
                                &&& nw.focused == crate::workspace::removed_ring_focus(
                                    ow.clients@,
                                    ow.focused as int,
                                    id,
                                )
                            })
                        &&& !final(self).knows_client(id)
                        &&& out@ == seq![XRequest::DeleteWindow(id)]
                            + final(self).configure_requests(old(self).focused_screen as int)
                    },
                }
            }),
            final(self).wf(),
    {
        let wix = self.screens[self.focused_screen].wix;
        proof {
            assert(self.workspaces@[wix as int].wf());
        }
        let target = self.workspaces[wix].focused_client();
        match target {
            Option::None => Vec::new(),
            Option::Some(id) => {
                let mut out: Vec<XRequest> = Vec::new();
                out.push(XRequest::DeleteWindow(id));
                self.remove_client(id);
                let mut configs = self.apply_layout(self.focused_screen);
                out.append(&mut configs);
                proof {
                    assert(out@ =~= seq![XRequest::DeleteWindow(id)] + self.configure_requests(
                        old(self).focused_screen as int,
                    ));
                }
                out
            },
        }
    }

    /// Show workspace `index` on the focused screen. If the focused screen
    /// already shows it nothing happens; if another screen shows it the two
    /// screens swap workspaces and both are reconciled; otherwise the
    /// outgoing workspace's clients are unmapped, the incoming ones mapped,
    /// and the focused screen reconciled.
    pub fn switch_workspace(&mut self, index: usize) -> (out: Vec<XRequest>)
        requires
            old(self).wf(),
            index < old(self).workspaces@.len(),
        ensures
            final(self).config == old(self).config,
            final(self).workspaces == old(self).workspaces,
            final(self).clients == old(self).clients,
            final(self).focused_screen == old(self).focused_screen,
            final(self).screens@.len() == old(self).screens@.len(),
            forall|i: int|
                0 <= i < old(self).screens@.len() ==> (#[trigger] final(self).screens@[i]).region
                    == old(self).screens@[i].region,
            final(self).wixes() == switched_wixes(
                old(self).wixes(),
                old(self).focused_screen as int,
                index,
            ),
            ({
                let f = old(self).focused_screen as int;
                let ws = old(self).wixes();
                if ws[f] == index {
                    out@ == Seq::<XRequest>::empty()
                } else if exists|j: int| 0 <= j < ws.len() && ws[j] == index {
                    let j = choose|j: int| 0 <= j < ws.len() && ws[j] == index;
                    out@ == final(self).configure_requests(f) + final(self).configure_requests(j)
                } else {
                    out@ == unmap_requests(old(self).workspace_on_screen(f).clients@)
                        + map_requests(old(self).workspaces@[index as int].clients@)
                        + final(self).configure_requests(f)
                }
            }),
            final(self).wf(),
    {
        let f = self.focused_screen;
        let ns = self.screens.len();
        let mut i: usize = 0;
        while i < ns && self.screens[i].wix != index
            invariant
                i <= ns,
                ns == self.screens@.len(),
                forall|m: int| 0 <= m < i ==> (#[trigger] self.screens@[m]).wix != index,
            decreases ns - i,
        {
            i = i + 1;
        }
        if i < ns {
            if i == f {
                proof {
                    assert(old(self).wixes()[f as int] == index);
                }
                return Vec::new();
            }
            // workspace `index` sits on screen `i`: pull it here and push
            // ours there
            proof {
                assert(old(self).wixes()[i as int] == index);
                assert(old(self).wixes()[f as int] != index);
            }
            let fw = self.screens[f].wix;
            let si = &mut self.screens[i];
            si.wix = fw;
            let sf = &mut self.screens[f];
            sf.wix = index;
            proof {
                let pre = *old(self);
                let post = *self;
                assert forall|a: int, b: int|
                    0 <= a < post.screens.len() && 0 <= b < post.screens.len() && a != b implies (
                #[trigger] post.screens[a]).wix != (#[trigger] post.screens[b]).wix by {
                    let a0 = if a == i as int {
                        f as int
                    } else if a == f as int {
                        i as int
                    } else {
                        a
                    };
                    let b0 = if b == i as int {
                        f as int
                    } else if b == f as int {
                        i as int
                    } else {
                        b
                    };
                    assert(post.screens[a].wix == pre.screens[a0].wix);
                    assert(post.screens[b].wix == pre.screens[b0].wix);
                    assert(pre.screens[a0].wix != pre.screens[b0].wix);
                }
                lemma_wf_with_same_contents(pre, post);
                let j0 = choose|j: int|
                    0 <= j < pre.wixes().len() && pre.wixes()[j] == index;
                assert(pre.wixes()[i as int] == index);
                if j0 != i as int {
                    assert(pre.screens[j0].wix == pre.screens[i as int].wix);
                }
                assert(j0 == i as int);
                assert(post.wixes() =~= switched_wixes(pre.wixes(), f as int, index));
            }
            let mut out = self.apply_layout(f);
            let mut out2 = self.apply_layout(i);
            out.append(&mut out2);
            proof {
                assert(out@ =~= self.configure_requests(f as int) + self.configure_requests(
                    i as int,
                ));
            }
            out
        } else {
            // workspace `index` is off-screen: swap it onto the focused
            // screen, hiding the outgoing clients and showing the incoming
            proof {
                assert(forall|m: int|
                    0 <= m < ns ==> (#[trigger] old(self).wixes()[m]) != index);
            }
            let current = self.screens[f].wix;
            let sf = &mut self.screens[f];
            sf.wix = index;
            proof {
                let pre = *old(self);
                let post = *self;
                assert forall|a: int, b: int|
                    0 <= a < post.screens.len() && 0 <= b < post.screens.len() && a != b implies (
                #[trigger] post.screens[a]).wix != (#[trigger] post.screens[b]).wix by {
                    if a != f as int && b != f as int {
                        assert(pre.screens[a].wix != pre.screens[b].wix);
                    } else if a == f as int {
                        assert(pre.wixes()[b] != index);
                    } else {
                        assert(pre.wixes()[a] != index);
                    }
                }
                lemma_wf_with_same_contents(pre, post);
                assert(post.wixes() =~= switched_wixes(pre.wixes(), f as int, index));
            }
            let mut out: Vec<XRequest> = Vec::new();
            let outgoing = self.workspaces[current].clients.len();
            let mut t: usize = 0;
            while t < outgoing
                invariant
                    t <= outgoing,
                    current < self.workspaces@.len(),
                    outgoing == self.workspaces@[current as int].clients@.len(),
                    out@.len() == t,
                    forall|m: int|
                        0 <= m < t ==> out@[m] == XRequest::UnmapWindow(
                            self.workspaces@[current as int].clients@[m],
                        ),
                decreases outgoing - t,
            {
                out.push(XRequest::UnmapWindow(self.workspaces[current].clients[t]));
                t = t + 1;
            }
            let ghost unmaps = out@;
            proof {
                assert(unmaps =~= unmap_requests(old(self).workspace_on_screen(f as int).clients@));
            }
            let incoming = self.workspaces[index].clients.len();
            let mut u: usize = 0;
            while u < incoming
                invariant
                    u <= incoming,
                    index < self.workspaces@.len(),
                    incoming == self.workspaces@[index as int].clients@.len(),
                    out@.len() == unmaps.len() + u,
                    out@ == unmaps + out@.skip(unmaps.len() as int),
                    forall|m: int|
                        0 <= m < u ==> out@[unmaps.len() + m] == XRequest::MapWindow(
                            self.workspaces@[index as int].clients@[m],
                        ),
                decreases incoming - u,
            {
                out.push(XRequest::MapWindow(self.workspaces[index].clients[u]));
                u = u + 1;
            }
            let ghost unmaps_maps = out@;
            proof {
                assert(unmaps_maps =~= unmaps + map_requests(
                    old(self).workspaces@[index as int].clients@,
                ));
            }
            let mut configs = self.apply_layout(f);
            out.append(&mut configs);
            proof {
                assert(out@ =~= unmap_requests(old(self).workspace_on_screen(f as int).clients@)
                    + map_requests(old(self).workspaces@[index as int].clients@)
                    + self.configure_requests(f as int));
            }
            out
        }
    }

    /// Move the focused client to workspace `index`: take it out of the
    /// focused screen's ring, append it to the target's ring, reconcile the
    /// focused screen and, when the target is visible somewhere, that
    /// screen too; an off-screen target hides the moved window instead.
    /// With no focused client this is a no-op.
    pub fn client_to_workspace(&mut self, index: usize) -> (out: Vec<XRequest>)
        requires
            old(self).wf(),
            index < old(self).workspaces@.len(),
        ensures
            final(self).config == old(self).config,
            final(self).screens == old(self).screens,
            final(self).clients == old(self).clients,
            final(self).focused_screen == old(self).focused_screen,
            final(self).workspaces@.len() == old(self).workspaces@.len(),
            ({
                let f = old(self).focused_screen as int;
                let src = old(self).screens[f].wix as int;
                match old(self).workspace_on_screen(f).focused_client_spec() {
                    Option::None => *final(self) == *old(self) && out@ == Seq::<
                        XRequest,
                    >::empty(),
                    Option::Some(id) => {
                        &&& (forall|k: int|
                            0 <= k < old(self).workspaces@.len() && k != src && k != index
                                ==> #[trigger] final(self).workspaces@[k] == old(
                                self,
                            ).workspaces@[k])
                        &&& (src != index ==> {
                            let ow = old(self).workspaces@[src];
                            let nw = final(self).workspaces@[src];
                            let ot = old(self).workspaces@[index as int];
                            let nt = final(self).workspaces@[index as int];
                            &&& nw == (Workspace {
                                clients: nw.clients,
                                focused: nw.focused,
                                ..ow
                            })
                            &&& nw.clients@ == crate::workspace::removed_ring(ow.clients@, id)
                            &&& nw.focused == crate::workspace::removed_ring_focus(
                                ow.clients@,
                                ow.focused as int,
                                id,
                            )
                            &&& nt == (Workspace {
                                clients: nt.clients,
                                focused: nt.focused,
                                ..ot
                            })
                            &&& nt.clients@ == ot.clients@.push(id)
                            &&& nt.focused == ot.clients@.len()
                        })
                        &&& (src == index ==> {
                            let ow = old(self).workspaces@[src];
                            let nw = final(self).workspaces@[src];
                            &&& nw == (Workspace {
                                clients: nw.clients,
                                focused: nw.focused,
                                ..ow
                            })
                            &&& nw.clients@ == crate::workspace::removed_ring(
                                ow.clients@,
                                id,
                            ).push(id)
                            &&& nw.focused == crate::workspace::removed_ring(
                                ow.clients@,
                                id,
                            ).len()
                        })
                        &&& out@ == final(self).configure_requests(f) + (if exists|j: int|
                            0 <= j < old(self).wixes().len() && old(self).wixes()[j] == index {
                            let j = choose|j: int|
                                0 <= j < old(self).wixes().len() && old(self).wixes()[j]
                                    == index;
                            final(self).configure_requests(j)
                        } else {
                            seq![XRequest::UnmapWindow(id)]
                        })
                    },
                }
            }),
            final(self).wf(),
    {
        let f = self.focused_screen;
        let src = self.screens[f].wix;
        proof {
            assert(old(self).workspaces@[src as int].wf());
        }
        let target = self.workspaces[src].focused_client();
        match target {
            Option::None => Vec::new(),
            Option::Some(id) => {
                proof {
                    assert(old(self).ring(src as int).contains(id));
                }
                let ws = &mut self.workspaces[src];
                ws.remove_client(id);
                let ghost mid = *self;
                proof {
                    if index != src {
                        assert(mid.workspaces@[index as int] == old(self).workspaces@[index as int]);
                        assert(old(self).workspaces@[index as int].wf());
                    }
                }
                let wt = &mut self.workspaces[index];
                wt.add_client(id);
                proof {
                    let pre = *old(self);
                    let post = *self;
                    crate::workspace::lemma_removed_ring(pre.ring(src as int), id);
                    assert forall|k: int|
                        0 <= k < pre.workspaces@.len() && k != src as int implies !(
                    #[trigger] pre.ring(k)).contains(id) by {
                        if pre.ring(k).contains(id) {
                            let i1 = choose|i1: int|
                                0 <= i1 < pre.ring(k).len() && pre.ring(k)[i1] == id;
                            let i2 = choose|i2: int|
                                0 <= i2 < pre.ring(src as int).len() && pre.ring(src as int)[i2]
                                    == id;
                            assert(pre.ring(k)[i1] != pre.ring(src as int)[i2]);
                        }
                    }
                    assert forall|k: int|
                        0 <= k < post.workspaces@.len() implies (
                    #[trigger] post.workspaces@[k]).wf()
                        && post.workspaces@[k].clients@.no_duplicates() by {
                        if k == index as int {
                            if index == src {
                                assert(mid.ring(k) == crate::workspace::removed_ring(
                                    pre.ring(src as int),
                                    id,
                                ));
                            } else {
                                assert(mid.ring(k) == pre.ring(k));
                            }
                            assert(!mid.ring(k).contains(id));
                            assert(post.ring(k) == mid.ring(k).push(id));
                            assert(forall|m: int|
                                0 <= m < mid.ring(k).len() ==> mid.ring(k)[m] != id);
                            assert(post.ring(k).no_duplicates());
                        } else if k == src as int {
                        } else {
                            assert(post.workspaces@[k] == pre.workspaces@[k]);
                        }
                    }
                    assert forall|k: int, i: int|
                        0 <= k < post.workspaces.len() && 0 <= i
                            < post.ring(k).len() implies post.knows_tiled_client(
                        #[trigger] post.ring(k)[i],
                    ) by {
                        let x = post.ring(k)[i];
                        if k == index as int && i == post.ring(k).len() - 1 {
                            assert(x == id);
                            assert(pre.knows_tiled_client(id));
                            let c = choose|c: int|
                                0 <= c < pre.clients.len() && pre.clients[c].id == id
                                    && !pre.clients[c].floating;
                            assert(post.clients[c].id == id && !post.clients[c].floating);
                        } else {
                            assert(mid.ring(k).contains(x)) by {
                                if k == index as int {
                                    assert(post.ring(k) == mid.ring(k).push(id));
                                    assert(x == post.ring(k)[i] && i < mid.ring(k).len());
                                } else {
                                    assert(post.ring(k) == mid.ring(k));
                                }
                            }
                            assert(pre.ring(k).contains(x)) by {
                                if k == src as int {
                                } else {
                                    assert(mid.ring(k) == pre.ring(k));
                                }
                            }
                            let i0 = choose|i0: int|
                                0 <= i0 < pre.ring(k).len() && pre.ring(k)[i0] == x;
                            assert(pre.knows_tiled_client(pre.ring(k)[i0]));
                            let c = choose|c: int|
                                0 <= c < pre.clients.len() && pre.clients[c].id == x
                                    && !pre.clients[c].floating;
                            assert(post.clients[c].id == x && !post.clients[c].floating);
                        }
                    }
                    assert forall|k1: int, i1: int, k2: int, i2: int|
                        0 <= k1 < post.workspaces.len() && 0 <= i1 < post.ring(k1).len() && 0 <= k2
                            < post.workspaces.len() && 0 <= i2 < post.ring(k2).len() && k1
                            != k2 implies (#[trigger] post.ring(k1)[i1]) != (#[trigger] post.ring(
                        k2,
                    )[i2]) by {
                        let x = post.ring(k1)[i1];
                        let y = post.ring(k2)[i2];
                        if x == y {
                            let in1 = k1 == index as int && i1 == post.ring(k1).len() - 1;
                            let in2 = k2 == index as int && i2 == post.ring(k2).len() - 1;
                            if in1 {
                                assert(x == id);
                                assert(!mid.ring(k2).contains(id)) by {
                                    if k2 == src as int {
                                    } else {
                                        assert(mid.ring(k2) == pre.ring(k2));
                                    }
                                }
                                assert(mid.ring(k2).contains(y)) by {
                                    assert(post.ring(k2) == mid.ring(k2));
                                }
                            } else if in2 {
                                assert(y == id);
                                assert(!mid.ring(k1).contains(id)) by {
                                    if k1 == src as int {
                                    } else {
                                        assert(mid.ring(k1) == pre.ring(k1));
                                    }
                                }
                                assert(mid.ring(k1).contains(x)) by {
                                    assert(post.ring(k1) == mid.ring(k1));
                                }
                            } else {
                                assert(mid.ring(k1).contains(x)) by {
                                    if k1 == index as int {
                                        assert(post.ring(k1) == mid.ring(k1).push(id));
                                        assert(i1 < mid.ring(k1).len());
                                    } else {
                                        assert(post.ring(k1) == mid.ring(k1));
                                    }
                                }
                                assert(mid.ring(k2).contains(y)) by {
                                    if k2 == index as int {
                                        assert(post.ring(k2) == mid.ring(k2).push(id));
                                        assert(i2 < mid.ring(k2).len());
                                    } else {
                                        assert(post.ring(k2) == mid.ring(k2));
                                    }
                                }
                                assert(pre.ring(k1).contains(x) && pre.ring(k2).contains(y)) by {
                                    if k1 != src as int {
                                        assert(mid.ring(k1) == pre.ring(k1));
                                    }
                                    if k2 != src as int {
                                        assert(mid.ring(k2) == pre.ring(k2));
                                    }
                                }
                                let j1 = choose|j: int|
                                    0 <= j < pre.ring(k1).len() && pre.ring(k1)[j] == x;
                                let j2 = choose|j: int|
                                    0 <= j < pre.ring(k2).len() && pre.ring(k2)[j] == y;
                                assert(pre.ring(k1)[j1] != pre.ring(k2)[j2]);
                            }
                        }
                    }
                    assert(post.wf());
                }
                let mut out = self.apply_layout(f);
                let ns = self.screens.len();
                let mut j: usize = 0;
                while j < ns && self.screens[j].wix != index
                    invariant
                        j <= ns,
                        ns == self.screens@.len(),
                        self.screens == old(self).screens,
                        forall|m: int| 0 <= m < j ==> (#[trigger] self.screens@[m]).wix != index,
                    decreases ns - j,
                {
                    j = j + 1;
                }
                if j < ns {
                    proof {
                        assert(old(self).wixes()[j as int] == index);
                        let j0 = choose|m: int|
                            0 <= m < old(self).wixes().len() && old(self).wixes()[m] == index;
                        if j0 != j as int {
                            assert(old(self).screens[j0].wix == old(self).screens[j as int].wix);
                        }
                        assert(j0 == j as int);
                    }
                    let mut out2 = self.apply_layout(j);
                    out.append(&mut out2);
                    proof {
                        assert(out@ =~= self.configure_requests(f as int) + self.configure_requests(
                            j as int,
                        ));
                    }
                } else {
                    proof {
                        assert(forall|m: int|
                            0 <= m < ns ==> (#[trigger] old(self).wixes()[m]) != index);
                    }
                    out.push(XRequest::UnmapWindow(id));
                    proof {
                        assert(out@ =~= self.configure_requests(f as int) + seq![
                            XRequest::UnmapWindow(id),
                        ]);
                    }
                }
                out
            },
        }
    }
}

/// A manager whose screens were rebound but whose workspaces and clients
/// are untouched is well formed, provided every screen still shows a real
/// workspace, on the same region, and no workspace twice.
pub proof fn lemma_wf_with_same_contents(pre: WindowManager, post: WindowManager)
    requires
        pre.wf(),
        post.config == pre.config,
        post.workspaces == pre.workspaces,
        post.clients == pre.clients,
        post.screens@.len() == pre.screens@.len(),
        post.focused_screen == pre.focused_screen,
        forall|m: int|
            0 <= m < post.screens@.len() ==> (#[trigger] post.screens[m]).region
                == pre.screens[m].region && post.screens[m].wix < post.workspaces@.len(),
        forall|a: int, b: int|
            0 <= a < post.screens@.len() && 0 <= b < post.screens@.len() && a != b ==> (
            #[trigger] post.screens[a]).wix != (#[trigger] post.screens[b]).wix,
    ensures
        post.wf(),
{
    assert(post.workspaces@ == pre.workspaces@);
    assert(post.clients@ == pre.clients@);
    assert forall|i: int|
        0 <= i < post.screens@.len() implies screen_region_ok(
        post.config,
        (#[trigger] post.screens[i]).region,
    ) by {
        assert(screen_region_ok(pre.config, pre.screens[i].region));
    }
    assert forall|k: int|
        0 <= k < post.workspaces@.len() implies (#[trigger] post.workspaces[k]).wf() && post.workspaces[k].clients@.no_duplicates() by {
        assert(pre.workspaces[k].wf() && pre.workspaces[k].clients@.no_duplicates());
    }
    assert forall|a: int, b: int|
        0 <= a < post.clients.len() && 0 <= b < post.clients.len() && a != b implies (
    #[trigger] post.clients[a]).id != (#[trigger] post.clients[b]).id by {
        assert(pre.clients[a].id != pre.clients[b].id);
    }
    assert forall|k: int, i: int|
        0 <= k < post.workspaces.len() && 0 <= i
            < post.ring(k).len() implies post.knows_tiled_client(#[trigger] post.ring(k)[i]) by {
        assert(post.ring(k) == pre.ring(k));
        assert(pre.knows_tiled_client(pre.ring(k)[i]));
        let c = choose|c: int|
            0 <= c < pre.clients.len() && pre.clients[c].id == pre.ring(k)[i]
                && !pre.clients[c].floating;
        assert(post.clients[c].id == post.ring(k)[i] && !post.clients[c].floating);
    }
    assert forall|k1: int, i1: int, k2: int, i2: int|
        0 <= k1 < post.workspaces.len() && 0 <= i1 < post.ring(k1).len() && 0 <= k2
            < post.workspaces.len() && 0 <= i2 < post.ring(k2).len() && k1 != k2 implies (
    #[trigger] post.ring(k1)[i1]) != (#[trigger] post.ring(k2)[i2]) by {
        assert(post.ring(k1) == pre.ring(k1) && post.ring(k2) == pre.ring(k2));
        assert(pre.ring(k1)[i1] != pre.ring(k2)[i2]);
    }
}

/// A manager with the same screens, workspaces and client identities as a
/// well-formed one is well formed itself, whatever its focus flags say.
pub proof fn lemma_wf_with_same_structure(pre: WindowManager, post: WindowManager)
    requires
        pre.wf(),
        post.config == pre.config,
        post.screens@ == pre.screens@,
        post.focused_screen == pre.focused_screen,
        post.workspaces@.len() == pre.workspaces@.len(),
        forall|k: int|
            0 <= k < pre.workspaces@.len() ==> (#[trigger] post.workspaces@[k]).clients@
                == pre.workspaces@[k].clients@ && post.workspaces@[k].wf(),
        post.clients@.len() == pre.clients@.len(),
        forall|j: int|
            0 <= j < pre.clients@.len() ==> (#[trigger] post.clients@[j]).id == pre.clients@[j].id
                && post.clients@[j].floating == pre.clients@[j].floating,
    ensures
        post.wf(),
{
    assert forall|a: int, b: int|
        0 <= a < post.clients.len() && 0 <= b < post.clients.len() && a != b implies (
    #[trigger] post.clients[a]).id != (#[trigger] post.clients[b]).id by {
        assert(pre.clients[a].id != pre.clients[b].id);
    }
    assert forall|k: int|
        0 <= k < post.workspaces.len() implies (#[trigger] post.workspaces[k]).clients@.no_duplicates() by {
        assert(post.ring(k) == pre.ring(k));
        assert(pre.workspaces[k].clients@.no_duplicates());
    }
    assert forall|k: int, i: int|
        0 <= k < post.workspaces.len() && 0 <= i
            < post.ring(k).len() implies post.knows_tiled_client(#[trigger] post.ring(k)[i]) by {
        assert(post.ring(k) == pre.ring(k));
        assert(pre.knows_tiled_client(pre.ring(k)[i]));
        let c = choose|c: int|
            0 <= c < pre.clients.len() && pre.clients[c].id == pre.ring(k)[i]
                && !pre.clients[c].floating;
        assert(post.clients[c].id == post.ring(k)[i] && !post.clients[c].floating);
    }
    assert forall|k1: int, i1: int, k2: int, i2: int|
        0 <= k1 < post.workspaces.len() && 0 <= i1 < post.ring(k1).len() && 0 <= k2
            < post.workspaces.len() && 0 <= i2 < post.ring(k2).len() && k1 != k2 implies (
    #[trigger] post.ring(k1)[i1]) != (#[trigger] post.ring(k2)[i2]) by {
        assert(post.ring(k1) == pre.ring(k1) && post.ring(k2) == pre.ring(k2));
        assert(pre.ring(k1)[i1] != pre.ring(k2)[i2]);
    }
}

} // verus!
