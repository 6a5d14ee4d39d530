//! End-to-end scenarios: one screen of 1000x800, three workspaces, border 2
//! and gap 4, master/stack layout with one main client at ratio 50.

use penrose::config::Config;
use penrose::data_types::{Region, XRequest};
use penrose::layout::Layout;
use penrose::manager::WindowManager;

fn test_config() -> Config {
    Config {
        workspace_names: vec!["1".to_string(), "2".to_string(), "3".to_string()],
        floating_classes: vec!["dmenu".to_string()],
        layouts: vec![Layout::Tiled],
        border_px: 2,
        gap_px: 4,
        max_main: 1,
        ratio: 50,
        focused_border_color: 0xcc241d,
        unfocused_border_color: 0x3c3836,
    }
}

fn manager() -> WindowManager {
    WindowManager::new(test_config(), vec![Region::new(0, 0, 1000, 800)]).unwrap()
}

fn configure(id: u32, x: u32, y: u32, w: u32, h: u32) -> XRequest {
    XRequest::Configure { id, x, y, w, h, border: 2 }
}

#[test]
fn single_client_fills_screen() {
    let mut wm = manager();
    let out = wm.handle_map_notify(10, "xterm".to_string());
    assert_eq!(
        out,
        vec![XRequest::Subscribe(10), configure(10, 4, 4, 1000 - 12, 800 - 12)]
    );
    assert_eq!(wm.clients.len(), 1);
    assert_eq!(wm.clients[0].id, 10);
    assert!(!wm.clients[0].floating);
    assert_eq!(wm.workspaces[0].clients, vec![10]);
}

#[test]
fn second_client_splits_at_half() {
    let mut wm = manager();
    wm.handle_map_notify(10, "xterm".to_string());
    let out = wm.handle_map_notify(11, "xterm".to_string());
    assert_eq!(
        out,
        vec![
            XRequest::Subscribe(11),
            configure(10, 4, 4, 500 - 12, 800 - 12),
            configure(11, 504, 4, 500 - 12, 800 - 12),
        ]
    );
    assert_eq!(wm.workspaces[0].clients, vec![10, 11]);
}

#[test]
fn inc_ratio_widens_main_column() {
    let mut wm = manager();
    wm.handle_map_notify(10, "xterm".to_string());
    wm.handle_map_notify(11, "xterm".to_string());
    let out = wm.inc_ratio();
    assert_eq!(wm.workspaces[0].ratio, 55);
    assert_eq!(
        out,
        vec![
            configure(10, 4, 4, 550 - 12, 800 - 12),
            configure(11, 554, 4, 450 - 12, 800 - 12),
        ]
    );
}

#[test]
fn switch_to_empty_workspace_unmaps_clients() {
    let mut wm = manager();
    wm.handle_map_notify(10, "xterm".to_string());
    wm.handle_map_notify(11, "xterm".to_string());
    let out = wm.switch_workspace(1);
    assert_eq!(wm.screens[0].wix, 1);
    assert_eq!(out, vec![XRequest::UnmapWindow(10), XRequest::UnmapWindow(11)]);
}

#[test]
fn switch_back_remaps_and_reconfigures_identically() {
    let mut wm = manager();
    wm.handle_map_notify(10, "xterm".to_string());
    let after_two = wm.handle_map_notify(11, "xterm".to_string());
    wm.switch_workspace(1);
    let out = wm.switch_workspace(0);
    assert_eq!(wm.screens[0].wix, 0);
    assert_eq!(
        out,
        vec![
            XRequest::MapWindow(10),
            XRequest::MapWindow(11),
            after_two[1],
            after_two[2],
        ]
    );
}

#[test]
fn destroy_leaves_survivor_fullscreen() {
    let mut wm = manager();
    wm.handle_map_notify(10, "xterm".to_string());
    wm.handle_map_notify(11, "xterm".to_string());
    let out = wm.handle_destroy_notify(10);
    assert_eq!(wm.workspaces[0].clients, vec![11]);
    assert_eq!(wm.clients.len(), 1);
    assert_eq!(wm.clients[0].id, 11);
    assert_eq!(out, vec![configure(11, 4, 4, 1000 - 12, 800 - 12)]);
}

#[test]
fn destroy_unknown_window_is_noop() {
    let mut wm = manager();
    wm.handle_map_notify(10, "xterm".to_string());
    let before_clients: Vec<u32> = wm.clients.iter().map(|c| c.id).collect();
    let before_ring = wm.workspaces[0].clients.clone();
    wm.handle_destroy_notify(99);
    let after_clients: Vec<u32> = wm.clients.iter().map(|c| c.id).collect();
    assert_eq!(before_clients, after_clients);
    assert_eq!(before_ring, wm.workspaces[0].clients);
}

#[test]
fn destroy_twice_equals_destroy_once() {
    let mut wm = manager();
    wm.handle_map_notify(10, "xterm".to_string());
    wm.handle_map_notify(11, "xterm".to_string());
    wm.handle_destroy_notify(10);
    let ring_once = wm.workspaces[0].clients.clone();
    let ids_once: Vec<u32> = wm.clients.iter().map(|c| c.id).collect();
    let out = wm.handle_destroy_notify(10);
    assert_eq!(ring_once, wm.workspaces[0].clients);
    assert_eq!(ids_once, wm.clients.iter().map(|c| c.id).collect::<Vec<u32>>());
    assert_eq!(out, vec![configure(11, 4, 4, 1000 - 12, 800 - 12)]);
}

#[test]
fn reconcile_twice_is_identical() {
    let mut wm = manager();
    wm.handle_map_notify(10, "xterm".to_string());
    wm.handle_map_notify(11, "xterm".to_string());
    let first = wm.apply_layout(0);
    let second = wm.apply_layout(0);
    assert_eq!(first, second);
}

#[test]
fn floating_class_client_stays_out_of_ring() {
    let mut wm = manager();
    let out = wm.handle_map_notify(20, "dmenu".to_string());
    assert_eq!(wm.clients.len(), 1);
    assert!(wm.clients[0].floating);
    assert!(wm.workspaces[0].clients.is_empty());
    assert_eq!(out, vec![XRequest::Subscribe(20)]);
}

#[test]
fn mapping_known_window_again_is_noop() {
    let mut wm = manager();
    wm.handle_map_notify(10, "xterm".to_string());
    let out = wm.handle_map_notify(10, "xterm".to_string());
    assert!(out.is_empty());
    assert_eq!(wm.clients.len(), 1);
    assert_eq!(wm.workspaces[0].clients, vec![10]);
}

#[test]
fn enter_notify_focuses_match_and_unfocuses_rest() {
    let mut wm = manager();
    wm.handle_map_notify(10, "xterm".to_string());
    wm.handle_map_notify(11, "xterm".to_string());
    let out = wm.handle_enter_notify(10);
    assert_eq!(out, vec![XRequest::Focus(10), XRequest::Unfocus(11)]);
    assert!(wm.clients[0].focused);
    assert!(!wm.clients[1].focused);
    let out2 = wm.handle_leave_notify(10);
    assert_eq!(out2, vec![XRequest::Unfocus(10)]);
    assert!(!wm.clients[0].focused);
}

#[test]
fn kill_client_sends_polite_delete_then_reconciles() {
    let mut wm = manager();
    wm.handle_map_notify(10, "xterm".to_string());
    wm.handle_map_notify(11, "xterm".to_string());
    // 11 is focused (newest ring member takes the focus)
    let out = wm.kill_client();
    assert_eq!(
        out,
        vec![XRequest::DeleteWindow(11), configure(10, 4, 4, 1000 - 12, 800 - 12)]
    );
    assert_eq!(wm.workspaces[0].clients, vec![10]);
    assert_eq!(wm.clients.len(), 1);
}

#[test]
fn kill_client_without_focus_is_noop() {
    let mut wm = manager();
    let out = wm.kill_client();
    assert!(out.is_empty());
}

#[test]
fn client_to_workspace_moves_focused_client() {
    let mut wm = manager();
    wm.handle_map_notify(10, "xterm".to_string());
    wm.handle_map_notify(11, "xterm".to_string());
    let out = wm.client_to_workspace(2);
    assert_eq!(wm.workspaces[0].clients, vec![10]);
    assert_eq!(wm.workspaces[2].clients, vec![11]);
    assert_eq!(
        out,
        vec![configure(10, 4, 4, 1000 - 12, 800 - 12), XRequest::UnmapWindow(11)]
    );
}

#[test]
fn next_client_hands_focus_around_the_ring() {
    let mut wm = manager();
    wm.handle_map_notify(10, "xterm".to_string());
    wm.handle_map_notify(11, "xterm".to_string());
    // ring focus sits on 11; forward wraps to 10
    let out = wm.next_client();
    assert_eq!(out, vec![XRequest::Focus(10), XRequest::Unfocus(11)]);
    assert_eq!(wm.focused_client(), Some(10));
    let out2 = wm.previous_client();
    assert_eq!(out2, vec![XRequest::Unfocus(10), XRequest::Focus(11)]);
    assert_eq!(wm.focused_client(), Some(11));
}
