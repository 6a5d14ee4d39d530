//! Unit-level checks: startup validation, layout arithmetic, workspace ring
//! behaviour, parameter clamping, and the two-screen workspace swap.

use penrose::config::Config;
use penrose::data_types::{Change, Direction, Region, XRequest};
use penrose::layout::{arrange, Layout};
use penrose::manager::{StartupError, WindowManager};
use penrose::workspace::Workspace;

fn names(v: &[&str]) -> Vec<String> {
    v.iter().map(|s| s.to_string()).collect()
}

fn base_config() -> Config {
    Config {
        workspace_names: names(&["1", "2", "3"]),
        floating_classes: vec![],
        layouts: vec![Layout::Tiled, Layout::Monocle, Layout::Floating],
        border_px: 2,
        gap_px: 4,
        max_main: 1,
        ratio: 50,
        focused_border_color: 1,
        unfocused_border_color: 0,
    }
}

#[test]
fn startup_rejects_no_outputs() {
    assert_eq!(
        WindowManager::new(base_config(), vec![]).unwrap_err(),
        StartupError::NoOutputs
    );
}

#[test]
fn startup_rejects_empty_workspace_list() {
    let mut cfg = base_config();
    cfg.workspace_names = vec![];
    let r = WindowManager::new(cfg, vec![Region::new(0, 0, 100, 100)]);
    assert_eq!(r.unwrap_err(), StartupError::NoWorkspaces);
}

#[test]
fn startup_rejects_more_screens_than_workspaces() {
    let mut cfg = base_config();
    cfg.workspace_names = names(&["only"]);
    let regions = vec![Region::new(0, 0, 100, 100), Region::new(100, 0, 100, 100)];
    assert_eq!(
        WindowManager::new(cfg, regions).unwrap_err(),
        StartupError::TooFewWorkspaces
    );
}

#[test]
fn startup_rejects_empty_layout_list() {
    let mut cfg = base_config();
    cfg.layouts = vec![];
    let r = WindowManager::new(cfg, vec![Region::new(0, 0, 100, 100)]);
    assert_eq!(r.unwrap_err(), StartupError::NoLayouts);
}

#[test]
fn startup_rejects_out_of_range_ratio() {
    let mut cfg = base_config();
    cfg.ratio = 97;
    let r = WindowManager::new(cfg, vec![Region::new(0, 0, 100, 100)]);
    assert_eq!(r.unwrap_err(), StartupError::BadParams);
}

#[test]
fn startup_rejects_region_smaller_than_padding() {
    // padding is 2 * (2 + 4) = 12, so a 12-pixel-wide region is refused
    let r = WindowManager::new(base_config(), vec![Region::new(0, 0, 12, 100)]);
    assert_eq!(r.unwrap_err(), StartupError::BadRegion);
}

#[test]
fn monocle_gives_every_client_the_full_region() {
    let region = Region::new(0, 0, 640, 480);
    let out = arrange(&Layout::Monocle, &region, &vec![1, 2, 3], 1, 50);
    assert_eq!(out.len(), 3);
    for (i, (id, r)) in out.iter().enumerate() {
        assert_eq!(*id, (i + 1) as u32);
        assert_eq!(*r, region);
    }
}

#[test]
fn floating_layout_emits_no_geometry() {
    let region = Region::new(0, 0, 640, 480);
    let out = arrange(&Layout::Floating, &region, &vec![1, 2, 3], 1, 50);
    assert!(out.is_empty());
}

#[test]
fn tiled_single_column_partitions_height() {
    let region = Region::new(0, 0, 640, 480);
    // three clients, all of them in the main column
    let out = arrange(&Layout::Tiled, &region, &vec![1, 2, 3], 3, 50);
    assert_eq!(out[0].1, Region::new(0, 0, 640, 160));
    assert_eq!(out[1].1, Region::new(0, 160, 640, 160));
    assert_eq!(out[2].1, Region::new(0, 320, 640, 160));
}

#[test]
fn tiled_split_respects_ratio_and_stacks_rest() {
    let region = Region::new(0, 0, 1000, 900);
    let out = arrange(&Layout::Tiled, &region, &vec![7, 8, 9], 1, 60);
    assert_eq!(out[0].1, Region::new(0, 0, 600, 900));
    assert_eq!(out[1].1, Region::new(600, 0, 400, 450));
    assert_eq!(out[2].1, Region::new(600, 450, 400, 450));
}

fn bare_workspace() -> Workspace {
    Workspace::new("w".to_string(), vec![Layout::Tiled, Layout::Monocle], 1, 50)
}

#[test]
fn ring_focus_follows_additions_and_removals() {
    let mut ws = bare_workspace();
    ws.add_client(1);
    ws.add_client(2);
    ws.add_client(3);
    assert_eq!(ws.focused_client(), Some(3));
    // removing the focused tail wraps the focus to the previous member
    ws.remove_client(3);
    assert_eq!(ws.focused_client(), Some(2));
    // removing a member before the focus keeps the same client focused
    ws.add_client(4);
    assert_eq!(ws.focused_client(), Some(4));
    ws.remove_client(1);
    assert_eq!(ws.focused_client(), Some(4));
    // removing the focused tail again wraps the focus to the previous
    ws.remove_client(4);
    assert_eq!(ws.focused_client(), Some(2));
    ws.remove_client(2);
    assert_eq!(ws.focused_client(), None);
    // removing from an empty ring stays a no-op
    ws.remove_client(2);
    assert_eq!(ws.focused_client(), None);
}

#[test]
fn cycling_wraps_in_both_directions() {
    let mut ws = bare_workspace();
    ws.add_client(1);
    assert_eq!(ws.cycle_client(Direction::Forward), None);
    ws.add_client(2);
    // focus sits on 2
    assert_eq!(ws.cycle_client(Direction::Forward), Some((2, 1)));
    assert_eq!(ws.cycle_client(Direction::Forward), Some((1, 2)));
    assert_eq!(ws.cycle_client(Direction::Backward), Some((2, 1)));
}

#[test]
fn layout_cycling_wraps() {
    let mut ws = bare_workspace();
    assert_eq!(ws.layout_index, 0);
    ws.cycle_layout(Direction::Forward);
    assert_eq!(ws.layout_index, 1);
    ws.cycle_layout(Direction::Forward);
    assert_eq!(ws.layout_index, 0);
    ws.cycle_layout(Direction::Backward);
    assert_eq!(ws.layout_index, 1);
}

#[test]
fn max_main_never_drops_below_one() {
    let mut ws = bare_workspace();
    ws.update_max_main(Change::Less);
    assert_eq!(ws.max_main, 1);
    ws.update_max_main(Change::More);
    assert_eq!(ws.max_main, 2);
    ws.update_max_main(Change::Less);
    assert_eq!(ws.max_main, 1);
}

#[test]
fn main_ratio_stays_strictly_between_bounds() {
    let mut ws = bare_workspace();
    for _ in 0..20 {
        ws.update_main_ratio(Change::More);
        assert!(ws.ratio > 5 && ws.ratio < 95);
    }
    assert_eq!(ws.ratio, 90);
    for _ in 0..20 {
        ws.update_main_ratio(Change::Less);
        assert!(ws.ratio > 5 && ws.ratio < 95);
    }
    assert_eq!(ws.ratio, 10);
}

#[test]
fn two_screen_switch_swaps_and_swaps_back() {
    let regions = vec![Region::new(0, 0, 800, 600), Region::new(800, 0, 800, 600)];
    let mut wm = WindowManager::new(base_config(), regions).unwrap();
    assert_eq!(wm.screens[0].wix, 0);
    assert_eq!(wm.screens[1].wix, 1);
    // workspace 1 sits on screen 1: switching pulls it to the focused
    // screen 0 and pushes workspace 0 over to screen 1
    wm.switch_workspace(1);
    assert_eq!(wm.screens[0].wix, 1);
    assert_eq!(wm.screens[1].wix, 0);
    // switching back to the previously shown workspace restores the map
    wm.switch_workspace(0);
    assert_eq!(wm.screens[0].wix, 0);
    assert_eq!(wm.screens[1].wix, 1);
}

#[test]
fn workspace_for_screen_follows_the_binding() {
    let regions = vec![Region::new(0, 0, 800, 600), Region::new(800, 0, 800, 600)];
    let mut wm = WindowManager::new(base_config(), regions).unwrap();
    assert_eq!(wm.workspace_for_screen(0).name, "1");
    assert_eq!(wm.workspace_for_screen(1).name, "2");
    wm.switch_workspace(2);
    assert_eq!(wm.workspace_for_screen(0).name, "3");
}

#[test]
fn switch_to_current_workspace_is_noop() {
    let mut wm = WindowManager::new(base_config(), vec![Region::new(0, 0, 800, 600)]).unwrap();
    let out = wm.switch_workspace(0);
    assert!(out.is_empty());
    assert_eq!(wm.screens[0].wix, 0);
}

#[test]
fn every_client_keeps_a_single_ring_slot() {
    let mut wm = WindowManager::new(base_config(), vec![Region::new(0, 0, 800, 600)]).unwrap();
    wm.handle_map_notify(1, "a".to_string());
    wm.handle_map_notify(2, "b".to_string());
    wm.client_to_workspace(1);
    wm.handle_map_notify(3, "c".to_string());
    // ids are unique in the global list
    let mut ids: Vec<u32> = wm.clients.iter().map(|c| c.id).collect();
    ids.sort();
    assert_eq!(ids, vec![1, 2, 3]);
    // and each ring holds what it should, with no id in two rings
    assert_eq!(wm.workspaces[0].clients, vec![1, 3]);
    assert_eq!(wm.workspaces[1].clients, vec![2]);
    assert!(wm.workspaces[2].clients.is_empty());
}

#[test]
fn unfocus_request_carries_the_unfocused_border() {
    // the driver maps Focus/Unfocus to border colours; the core keeps the
    // flags consistent
    let mut wm = WindowManager::new(base_config(), vec![Region::new(0, 0, 800, 600)]).unwrap();
    wm.handle_map_notify(1, "a".to_string());
    let out = wm.handle_enter_notify(1);
    assert_eq!(out, vec![XRequest::Focus(1)]);
    assert!(wm.clients[0].focused);
}
