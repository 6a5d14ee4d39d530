//! The laws the manager obeys, written out and proved: what the invariant
//! gives about floating clients, totality of the master/stack layout, and
//! the idempotence and symmetry of the state transitions. The manager's
//! contracts state the transitions; these lemmas state what follows from
//! them.

use vstd::prelude::*;

use crate::client::Client;
use crate::config::Config;
use crate::data_types::{Region, WinId, XRequest};
use crate::layout;
use crate::manager::{
    client_index, clients_after_remove, padded_rect, padding, screen_region_ok, switched_wixes,
    WindowManager,
};
use crate::workspace::{removed_ring, removed_ring_focus};

verus! {

/// Client injectivity, floating half: a floating client lies in no
/// workspace ring. (That ids are unique in the client list and appear in at
/// most one ring, each at most once, is the invariant itself.)
pub proof fn lemma_floating_clients_off_ring(wm: WindowManager, c: int)
    requires
        wm.wf(),
        0 <= c < wm.clients@.len(),
        wm.clients@[c].floating,
    ensures
        !wm.in_some_ring(wm.clients@[c].id),
{
    let id = wm.clients@[c].id;
    if wm.in_some_ring(id) {
        let k = choose|k: int| 0 <= k < wm.workspaces.len() && wm.ring(k).contains(id);
        let i = choose|i: int| 0 <= i < wm.ring(k).len() && wm.ring(k)[i] == id;
        assert(wm.knows_tiled_client(wm.ring(k)[i]));
        let c2 = choose|c2: int|
            0 <= c2 < wm.clients.len() && wm.clients[c2].id == id && !wm.clients[c2].floating;
        assert(c2 != c);
        assert(wm.clients[c2].id != wm.clients[c].id);
    }
}

/// Layout totality for the master/stack layout: when both columns clear
/// the padding and the region offers every row at least one pixel beyond
/// the padding, every client's padded rectangle has strictly positive
/// width and height (exactly the row minus the padding), lies inside the
/// screen region shrunk by the outer gap, and no two rectangles overlap.
pub proof fn lemma_tiled_layout_totality(
    cfg: Config,
    region: Region,
    ring: Seq<WinId>,
    max_main: int,
    ratio: int,
)
    requires
        screen_region_ok(cfg, region),
        ring.len() > 0,
        0 <= ratio <= 100,
        0 <= max_main,
        (ring.len() <= max_main || ratio >= 100) ==> region.h >= ring.len() * (padding(cfg) + 1),
        (ring.len() > max_main && ratio < 100) ==> {
            &&& padding(cfg) < region.w * ratio / 100
            &&& padding(cfg) < region.w - region.w * ratio / 100
            &&& 0 < max_main
            &&& region.h >= max_main * (padding(cfg) + 1)
            &&& region.h >= (ring.len() - max_main) * (padding(cfg) + 1)
        },
    ensures
        ({
            let n = ring.len() as int;
            let raw = |i: int| layout::tiled_rect(region, n, max_main, ratio, i);
            let rects = Seq::new(ring.len(), |i: int| padded_rect(cfg, raw(i)));
            &&& forall|i: int|
                0 <= i < n ==> (#[trigger] rects[i]).w > 0 && rects[i].h > 0 && rects[i].w
                    == layout::tiled_rect(region, n, max_main, ratio, i).w - padding(cfg)
                    && rects[i].h == layout::tiled_rect(region, n, max_main, ratio, i).h - padding(
                    cfg,
                )
            &&& forall|i: int|
                0 <= i < n ==> region.x + cfg.gap_px <= (#[trigger] rects[i]).x && rects[i].x
                    + rects[i].w <= region.x + region.w - cfg.gap_px && region.y + cfg.gap_px
                    <= rects[i].y && rects[i].y + rects[i].h <= region.y + region.h - cfg.gap_px
            &&& forall|i: int, j: int|
                0 <= i < j < n ==> layout::rects_disjoint(
                    #[trigger] rects[i],
                    #[trigger] rects[j],
                )
        }),
{
    let n = ring.len() as int;
    let pad = padding(cfg);
    let single = n <= max_main || ratio >= 100;
    let main = layout::main_column(region, ratio);
    let stack = layout::stack_column(region, ratio);
    layout::lemma_columns_in_region(region, ratio);
    if single {
        layout::lemma_vstack_row_bounds(region, n, pad + 1);
    } else {
        layout::lemma_vstack_row_bounds(main, max_main, pad + 1);
        layout::lemma_vstack_row_bounds(stack, n - max_main, pad + 1);
    }
    assert forall|i: int|
        0 <= i < n implies {
        let r = #[trigger] layout::tiled_rect(region, n, max_main, ratio, i);
        &&& r.w > pad
        &&& r.h > pad
        &&& layout::rect_in_region(r, region)
    } by {
        if single {
            layout::lemma_vstack_in_region(region, n, i);
        } else if i < max_main {
            layout::lemma_vstack_in_region(main, max_main, i);
        } else {
            layout::lemma_vstack_in_region(stack, n - max_main, i - max_main);
        }
    }
    assert forall|i: int, j: int|
        0 <= i < j < n implies layout::rects_disjoint(
        layout::tiled_rect(region, n, max_main, ratio, i),
        layout::tiled_rect(region, n, max_main, ratio, j),
    ) by {
        if single {
            layout::lemma_vstack_in_region(region, n, i);
            layout::lemma_vstack_in_region(region, n, j);
        } else if j < max_main {
            layout::lemma_vstack_in_region(main, max_main, i);
            layout::lemma_vstack_in_region(main, max_main, j);
        } else if i >= max_main {
            layout::lemma_vstack_in_region(stack, n - max_main, i - max_main);
            layout::lemma_vstack_in_region(stack, n - max_main, j - max_main);
        } else {
            layout::lemma_vstack_in_region(main, max_main, i);
            layout::lemma_vstack_in_region(stack, n - max_main, j - max_main);
        }
    }
}

/// Reconcile idempotence: the configure requests of a reconcile are a
/// function of the manager state and the screen alone, so two reconciles
/// with no mutation in between issue identical requests.
pub proof fn lemma_reconcile_idempotent(
    wm: WindowManager,
    s: int,
    first: Seq<XRequest>,
    second: Seq<XRequest>,
)
    requires
        first == wm.configure_requests(s),
        second == wm.configure_requests(s),
    ensures
        first == second,
{
}

/// Destroy idempotence, ring half: removing an id from a duplicate-free
/// ring twice leaves exactly what one removal left, focus included.
pub proof fn lemma_ring_remove_idempotent(ring: Seq<WinId>, f: int, id: WinId)
    requires
        ring.no_duplicates(),
    ensures
        removed_ring(removed_ring(ring, id), id) == removed_ring(ring, id),
        removed_ring_focus(
            removed_ring(ring, id),
            removed_ring_focus(ring, f, id),
            id,
        ) == removed_ring_focus(ring, f, id),
{
    crate::workspace::lemma_removed_ring(ring, id);
}

/// Destroy idempotence, client-list half: with unique ids, dropping the
/// record of `id` twice leaves exactly what one drop left.
pub proof fn lemma_clients_remove_idempotent(clients: Seq<Client>, id: WinId)
    requires
        forall|a: int, b: int|
            0 <= a < clients.len() && 0 <= b < clients.len() && a != b ==> (
            #[trigger] clients[a]).id != (#[trigger] clients[b]).id,
    ensures
        clients_after_remove(clients_after_remove(clients, id), id) == clients_after_remove(
            clients,
            id,
        ),
{
    let once = clients_after_remove(clients, id);
    if exists|c: int| 0 <= c < clients.len() && clients[c].id == id {
        let p = client_index(clients, id);
        assert(0 <= p < clients.len() && clients[p].id == id);
        assert(!(exists|c: int| 0 <= c < once.len() && once[c].id == id)) by {
            if exists|c: int| 0 <= c < once.len() && once[c].id == id {
                let c = choose|c: int| 0 <= c < once.len() && once[c].id == id;
                if c < p {
                    assert(clients[c].id == clients[p].id);
                } else {
                    assert(clients[c + 1].id == clients[p].id);
                }
            }
        }
    } else {
        assert(once == clients);
    }
}

/// Swap symmetry: switching the focused screen to workspace `target` and
/// then back to the workspace it showed before restores the screen-to-
/// workspace assignment exactly.
pub proof fn lemma_switch_swap_symmetry(wixes: Seq<usize>, f: int, target: usize)
    requires
        0 <= f < wixes.len(),
        forall|a: int, b: int|
            0 <= a < wixes.len() && 0 <= b < wixes.len() && a != b ==> (#[trigger] wixes[a]) != (
            #[trigger] wixes[b]),
    ensures
        switched_wixes(switched_wixes(wixes, f, target), f, wixes[f]) == wixes,
{
    let prev = wixes[f];
    let once = switched_wixes(wixes, f, target);
    if wixes[f] == target {
        assert(once == wixes);
        assert(switched_wixes(once, f, prev) == wixes);
    } else if exists|j: int| 0 <= j < wixes.len() && wixes[j] == target {
        let j = choose|j: int| 0 <= j < wixes.len() && wixes[j] == target;
        assert(once == wixes.update(j, prev).update(f, target));
        assert(j != f);
        assert(once[f] == target && once[j] == prev);
        assert(once[f] != prev);
        assert(exists|m: int| 0 <= m < once.len() && once[m] == prev) by {
            assert(once[j] == prev);
        }
        let j2 = choose|m: int| 0 <= m < once.len() && once[m] == prev;
        assert(j2 == j) by {
            if j2 != j {
                if j2 == f {
                    assert(once[f] == target);
                } else {
                    assert(once[j2] == wixes[j2]);
                    assert(wixes[j2] != wixes[f]);
                }
            }
        }
        let twice = switched_wixes(once, f, prev);
        assert(twice == once.update(j, once[f]).update(f, prev));
        assert(twice =~= wixes);
    } else {
        assert(once == wixes.update(f, target));
        assert(once[f] == target);
        assert(target != prev);
        assert(!(exists|m: int| 0 <= m < once.len() && once[m] == prev)) by {
            if exists|m: int| 0 <= m < once.len() && once[m] == prev {
                let m = choose|m: int| 0 <= m < once.len() && once[m] == prev;
                if m != f {
                    assert(once[m] == wixes[m]);
                    assert(wixes[m] != wixes[f]);
                }
            }
        }
        let twice = switched_wixes(once, f, prev);
        assert(twice == once.update(f, prev));
        assert(twice =~= wixes);
    }
}

} // verus!
