use novawm::config::{PersistenceConfig, UserConfig, WorkspaceConfig};
use novawm::container::attach_container;
use novawm::error::WmError;
use novawm::events::add_monitor;
use novawm::focus_workspace::{focus_workspace, WorkspaceTarget};
use novawm::model::{
    ContainerData, Direction, FullscreenStateConfig, NativeMonitorProperties, NativeWindowProperties,
    Rect, WindowState,
};
use novawm::move_workspace::move_workspace_in_direction;
use novawm::state::WmState;
use novawm::workspace::{activate_workspace, ensure_workspaces_for_monitor, focus_all_workspaces, focus_monitor};

fn config_of(entries: &[(&str, Option<u32>, bool)]) -> UserConfig {
    UserConfig {
        workspaces: entries
            .iter()
            .map(|(name, bind, keep)| WorkspaceConfig {
                name: name.to_string(),
                display_name: None,
                bind_to_monitor: *bind,
                keep_alive: *keep,
            })
            .collect(),
        persistence: PersistenceConfig { enabled: false, restore_on_startup: false, restore_on_monitor_reconnect: false },
        fullscreen_defaults: FullscreenStateConfig { maximized: false, shown_on_top: false },
    }
}

fn monitor(state: &mut WmState, name: &str, area: Rect) -> usize {
    add_monitor(NativeMonitorProperties::new(name.to_string(), None, None, area), state).unwrap()
}

fn window(state: &mut WmState, title: &str) -> usize {
    let mut native = NativeWindowProperties::empty();
    native.title = title.to_string();
    native.frame = Rect::from_xy(0, 0, 100, 100);
    state.add_container(ContainerData::window(native, WindowState::Tiling))
}

fn names(state: &WmState, m: usize) -> Vec<String> {
    state.links[m].children.iter().map(|&w| state.data[w].workspace_name.clone()).collect()
}

fn displayed_name(state: &WmState, m: usize) -> String {
    let w = state.displayed_workspace(m).expect("displayed");
    state.data[w].workspace_name.clone()
}

#[test]
fn each_monitor_gets_its_applicable_workspaces() {
    let config = config_of(&[("1", None, false), ("2", Some(1), false), ("3", Some(0), false)]);
    let mut state = WmState::new();
    let m0 = monitor(&mut state, "m0", Rect::from_xy(0, 0, 100, 100));
    let m1 = monitor(&mut state, "m1", Rect::from_xy(100, 0, 100, 100));
    ensure_workspaces_for_monitor(m0, &mut state, &config).unwrap();
    ensure_workspaces_for_monitor(m1, &mut state, &config).unwrap();
    assert_eq!(names(&state, m0), vec!["1", "3"]);
    assert_eq!(names(&state, m1), vec!["1", "2"]);
    // A second call adds nothing.
    let count = state.links.len();
    let focus = state.links[m0].focus_order.clone();
    ensure_workspaces_for_monitor(m0, &mut state, &config).unwrap();
    assert_eq!(names(&state, m0), vec!["1", "3"]);
    assert_eq!(state.links.len(), count);
    assert_eq!(state.links[m0].focus_order, focus);
}

#[test]
fn a_monitor_without_any_config_is_an_error() {
    let config = config_of(&[("1", Some(5), false)]);
    let mut state = WmState::new();
    let m0 = monitor(&mut state, "m0", Rect::from_xy(0, 0, 100, 100));
    assert_eq!(ensure_workspaces_for_monitor(m0, &mut state, &config), Err(WmError::NoWorkspaceConfigAvailable));
    assert_eq!(state.child_count(m0), 0);
}

#[test]
fn activation_errors() {
    let config = config_of(&[("1", None, false)]);
    let mut state = WmState::new();
    let m0 = monitor(&mut state, "m0", Rect::from_xy(0, 0, 100, 100));
    assert_eq!(activate_workspace(Some("9"), m0, &mut state, &config), Err(WmError::WorkspaceConfigNotFound));
    let w = activate_workspace(Some("1"), m0, &mut state, &config).unwrap();
    assert_eq!(state.data[w].workspace_name, "1");
    assert_eq!(activate_workspace(Some("1"), m0, &mut state, &config), Err(WmError::WorkspaceAlreadyActive));
    assert_eq!(activate_workspace(None, m0, &mut state, &config), Err(WmError::NoWorkspaceConfigAvailable));
}

fn two_monitors() -> (UserConfig, WmState, usize, usize) {
    let config = config_of(&[("1", None, false), ("2", None, false), ("3", Some(0), true)]);
    let mut state = WmState::new();
    let m0 = monitor(&mut state, "m0", Rect::from_xy(0, 0, 100, 100));
    let m1 = monitor(&mut state, "m1", Rect::from_xy(100, 0, 100, 100));
    ensure_workspaces_for_monitor(m0, &mut state, &config).unwrap();
    ensure_workspaces_for_monitor(m1, &mut state, &config).unwrap();
    (config, state, m0, m1)
}

#[test]
fn focus_all_workspaces_switches_every_monitor() {
    let (config, mut state, m0, m1) = two_monitors();
    let w = window(&mut state, "A");
    let ws1 = state.workspace_by_name_in_monitor(m0, "1").unwrap();
    attach_container(w, ws1, None, &mut state).unwrap();
    state.set_focused_descendant(w);

    focus_all_workspaces("2", &mut state, &config).unwrap();
    assert_eq!(displayed_name(&state, m0), "2");
    assert_eq!(displayed_name(&state, m1), "2");
    assert!(state.pending_sync.cursor_jump);

    focus_all_workspaces("3", &mut state, &config).unwrap();
    assert_eq!(displayed_name(&state, m0), "3");
    // Monitor 1 has no workspace 3 and stays on 2.
    assert_eq!(displayed_name(&state, m1), "2");
}

#[test]
fn focus_all_workspaces_needs_focus() {
    let (config, _state, _m0, _m1) = two_monitors();
    let mut empty = WmState::new();
    assert_eq!(focus_all_workspaces("1", &mut empty, &config), Err(WmError::NoFocusedContainer));
}

#[test]
fn focus_monitor_by_index() {
    let (config, mut state, m0, m1) = two_monitors();
    let ws = state.workspace_by_name_in_monitor(m0, "1").unwrap();
    state.set_focused_descendant(ws);
    assert_eq!(focus_monitor(5, &mut state, &config), Err(WmError::MonitorNotFound));
    focus_monitor(1, &mut state, &config).unwrap();
    assert_eq!(state.focused_container().and_then(|c| state.monitor_of(c)), Some(m1));
    assert!(state.pending_sync.focus_change);
}

#[test]
fn focus_workspace_by_name_and_back() {
    let (config, mut state, m0, _m1) = two_monitors();
    let w = window(&mut state, "A");
    let ws1 = state.workspace_by_name_in_monitor(m0, "1").unwrap();
    attach_container(w, ws1, None, &mut state).unwrap();
    state.set_focused_descendant(w);

    focus_workspace(WorkspaceTarget::Name("2".to_string()), &mut state, &config).unwrap();
    assert_eq!(displayed_name(&state, m0), "2");
    assert_eq!(state.data[m0].recent_workspace_name.as_deref(), Some("1"));

    focus_workspace(WorkspaceTarget::Recent, &mut state, &config).unwrap();
    assert_eq!(displayed_name(&state, m0), "1");
    assert_eq!(state.focused_container(), Some(w));
}

#[test]
fn focus_workspace_errors() {
    let (config, _state, _m0, _m1) = two_monitors();
    let mut empty = WmState::new();
    assert_eq!(
        focus_workspace(WorkspaceTarget::Name("1".to_string()), &mut empty, &config),
        Err(WmError::NoFocusedWorkspace)
    );
}

#[test]
fn move_workspace_to_the_right() {
    let config = config_of(&[("1", Some(0), false), ("2", Some(1), false), ("4", None, true)]);
    let mut state = WmState::new();
    let m0 = monitor(&mut state, "m0", Rect::from_xy(0, 0, 100, 100));
    let m1 = monitor(&mut state, "m1", Rect::from_xy(100, 0, 100, 100));
    ensure_workspaces_for_monitor(m0, &mut state, &config).unwrap();
    ensure_workspaces_for_monitor(m1, &mut state, &config).unwrap();
    let ws1 = state.workspace_by_name_in_monitor(m0, "1").unwrap();
    let w = window(&mut state, "A");
    attach_container(w, ws1, None, &mut state).unwrap();
    state.set_focused_descendant(w);

    move_workspace_in_direction(ws1, Direction::Right, &mut state, &config).unwrap();
    assert_eq!(state.links[ws1].parent, Some(m1));
    assert!(state.pending_sync.cursor_jump);
    assert!(state.data[w].window.has_pending_dpi_adjustment);

    // The workspace named "4" exists on both monitors, so it cannot move.
    let ws4 = state.workspace_by_name_in_monitor(m1, "4").unwrap();
    assert_eq!(move_workspace_in_direction(ws4, Direction::Left, &mut state, &config), Err(WmError::WorkspaceNameTaken));
    // Nothing lies above.
    assert_eq!(move_workspace_in_direction(ws4, Direction::Up, &mut state, &config), Ok(()));
}

#[test]
fn moved_workspace_is_recentered_on_its_new_monitor_and_sorted() {
    let config = config_of(&[("1", Some(0), false), ("2", Some(1), false), ("4", None, true)]);
    let mut state = WmState::new();
    let m0 = monitor(&mut state, "m0", Rect::from_xy(0, 0, 100, 100));
    let m1 = monitor(&mut state, "m1", Rect::from_xy(100, 0, 100, 100));
    ensure_workspaces_for_monitor(m0, &mut state, &config).unwrap();
    ensure_workspaces_for_monitor(m1, &mut state, &config).unwrap();
    assert_eq!(names(&state, m1), vec!["2".to_string(), "4".to_string()]);
    let ws1 = state.workspace_by_name_in_monitor(m0, "1").unwrap();
    let w = window(&mut state, "A");
    attach_container(w, ws1, None, &mut state).unwrap();
    state.set_floating_placement(w, Rect::from_xy(0, 0, 40, 20), false);
    state.set_focused_descendant(w);

    move_workspace_in_direction(ws1, Direction::Right, &mut state, &config).unwrap();
    // Centered in the working area of the monitor on the right.
    let placement = state.data[w].window.floating_placement;
    assert_eq!((placement.x, placement.y, placement.width, placement.height), (130, 40, 40, 20));
    // The monitor's workspaces follow the order of the config.
    assert_eq!(names(&state, m1), vec!["1".to_string(), "2".to_string(), "4".to_string()]);
}

#[test]
fn ensuring_workspaces_twice_changes_nothing_the_second_time() {
    let (config, mut state, m0, _m1) = two_monitors();
    let len = state.links.len();
    let before = names(&state, m0);
    assert_eq!(ensure_workspaces_for_monitor(m0, &mut state, &config), Ok(()));
    assert_eq!(state.links.len(), len);
    assert_eq!(names(&state, m0), before);
}
