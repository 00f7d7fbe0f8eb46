use novawm::config::{PersistenceConfig, UserConfig, WorkspaceConfig};
use novawm::container::{
    attach_container, collapse_stack_container, focus_tab, unstack, wrap_in_stack_container,
    TabDirection,
};
use novawm::error::WmError;
use novawm::events::add_monitor;
use novawm::model::{
    ContainerData, ContainerKind, FullscreenStateConfig, NativeMonitorProperties,
    NativeWindowProperties, Rect, WindowState, FULL_TILING_SIZE,
};
use novawm::state::WmState;
use novawm::workspace::{ensure_workspaces_for_monitor, focus_all_workspaces};

fn test_config() -> UserConfig {
    UserConfig {
        workspaces: ["1", "2"]
            .iter()
            .map(|name| WorkspaceConfig {
                name: name.to_string(),
                display_name: None,
                bind_to_monitor: None,
                keep_alive: false,
            })
            .collect(),
        persistence: PersistenceConfig {
            enabled: false,
            restore_on_startup: false,
            restore_on_monitor_reconnect: false,
        },
        fullscreen_defaults: FullscreenStateConfig { maximized: true, shown_on_top: false },
    }
}

fn monitor_props(name: &str) -> NativeMonitorProperties {
    NativeMonitorProperties::new(
        name.to_string(),
        None,
        None,
        Rect::from_xy(0, 0, 1920, 1080),
    )
}

fn add_test_monitor(state: &mut WmState, config: &UserConfig) -> usize {
    let m = add_monitor(monitor_props("monitor"), state).unwrap();
    ensure_workspaces_for_monitor(m, state, config).unwrap();
    m
}

fn window_props(title: &str, frame: Rect) -> NativeWindowProperties {
    let mut native = NativeWindowProperties::empty();
    native.title = title.to_string();
    native.frame = frame;
    native
}

fn tiling_window(state: &mut WmState, title: &str) -> usize {
    state.add_container(ContainerData::window(
        window_props(title, Rect::from_xy(0, 0, 800, 600)),
        WindowState::Tiling,
    ))
}

/// A stack holding the given windows, attached last to `parent`.
fn stack_of(state: &mut WmState, parent: usize, children: &[usize]) -> usize {
    let stack = state.add_container(ContainerData::stack());
    attach_container(stack, parent, None, state).unwrap();
    for &c in children {
        attach_container(c, stack, None, state).unwrap();
    }
    stack
}

fn workspace(state: &WmState, monitor: usize, name: &str) -> usize {
    state.workspace_by_name_in_monitor(monitor, name).expect("workspace should exist")
}

#[test]
fn stack_next_prev_preserve_geometry() {
    let config = test_config();
    let mut state = WmState::new();
    let monitor = add_test_monitor(&mut state, &config);
    let ws = workspace(&state, monitor, "1");
    let a = tiling_window(&mut state, "A");
    let b = tiling_window(&mut state, "B");
    let stack = stack_of(&mut state, ws, &[a, b]);
    state.set_focused_descendant(a);
    // The layout, run outside the library, records where the stack lies.
    state.set_rect(stack, Rect::from_xy(0, 0, 2000, 1000));
    let before = state.data[stack].rect;
    // What the layout is computed from: the tree and the tiling sizes.
    let layout_inputs = |state: &WmState| {
        (
            state.links[ws].children.clone(),
            state.links[stack].children.clone(),
            state.data[stack].tiling_size,
            state.data[a].tiling_size,
            state.data[b].tiling_size,
        )
    };
    let inputs = layout_inputs(&state);

    focus_tab(a, TabDirection::Next, &mut state).unwrap();
    assert_eq!(state.selected_child(stack).expect("selected"), b);
    assert_eq!(state.data[stack].rect, before);
    assert_eq!(layout_inputs(&state), inputs);

    focus_tab(b, TabDirection::Previous, &mut state).unwrap();
    assert_eq!(state.selected_child(stack).expect("selected"), a);
    assert_eq!(state.data[stack].rect, before);
    assert_eq!(layout_inputs(&state), inputs);
}

#[test]
fn stack_hidden_children_preserve_monitor_workspace() {
    let config = test_config();
    let mut state = WmState::new();
    let monitor = add_test_monitor(&mut state, &config);
    let ws = workspace(&state, monitor, "1");
    let a = tiling_window(&mut state, "A");
    let b = tiling_window(&mut state, "B");
    let _stack = stack_of(&mut state, ws, &[a, b]);
    state.set_focused_descendant(a);
    focus_tab(a, TabDirection::Next, &mut state).unwrap();

    assert_eq!(state.workspace_of(a).expect("workspace"), ws);
    assert_eq!(state.monitor_of(a).expect("monitor"), monitor);
    assert_eq!(state.workspace_of(b).expect("workspace"), ws);
    assert_eq!(state.monitor_of(b).expect("monitor"), monitor);
}

#[test]
fn unstack_collapses_single_child_stack() {
    let config = test_config();
    let mut state = WmState::new();
    let monitor = add_test_monitor(&mut state, &config);
    let ws = workspace(&state, monitor, "1");
    let a = tiling_window(&mut state, "A");
    let b = tiling_window(&mut state, "B");
    let stack = stack_of(&mut state, ws, &[a, b]);
    state.set_focused_descendant(a);

    unstack(a, &mut state).unwrap();

    assert!(state.links[stack].parent.is_none());
    assert_eq!(state.child_count(ws), 2);
    assert_eq!(state.links[a].parent, Some(ws));
    assert_eq!(state.links[b].parent, Some(ws));
}

#[test]
fn stack_survives_workspace_switch() {
    let config = test_config();
    let mut state = WmState::new();
    let monitor = add_test_monitor(&mut state, &config);
    let ws1 = workspace(&state, monitor, "1");
    let a = tiling_window(&mut state, "A");
    let b = tiling_window(&mut state, "B");
    let stack = stack_of(&mut state, ws1, &[a, b]);
    state.set_focused_descendant(a);

    focus_all_workspaces("2", &mut state, &config).unwrap();
    focus_all_workspaces("1", &mut state, &config).unwrap();

    assert!(state.links[stack].parent.is_some());
    assert_eq!(state.child_count(stack), 2);
    assert_eq!(state.workspace_of(a).expect("workspace"), ws1);
    assert_eq!(state.workspace_of(b).expect("workspace"), ws1);
}

#[test]
fn tab_next_cycles_through_all_children() {
    let config = test_config();
    let mut state = WmState::new();
    let monitor = add_test_monitor(&mut state, &config);
    let ws = workspace(&state, monitor, "1");
    let a = tiling_window(&mut state, "A");
    let b = tiling_window(&mut state, "B");
    let c = tiling_window(&mut state, "C");
    let stack = stack_of(&mut state, ws, &[a, b, c]);
    state.set_focused_descendant(a);

    focus_tab(a, TabDirection::Next, &mut state).unwrap();
    assert_eq!(state.selected_child(stack), Some(b));
    focus_tab(b, TabDirection::Next, &mut state).unwrap();
    assert_eq!(state.selected_child(stack), Some(c));
    focus_tab(c, TabDirection::Next, &mut state).unwrap();
    assert_eq!(state.selected_child(stack), Some(a));
    assert!(state.pending_sync.focus_change);
    assert!(state.pending_sync.containers_to_redraw.contains(&stack));
}

#[test]
fn tab_outside_a_stack_changes_nothing() {
    let config = test_config();
    let mut state = WmState::new();
    let monitor = add_test_monitor(&mut state, &config);
    let ws = workspace(&state, monitor, "1");
    let a = tiling_window(&mut state, "A");
    attach_container(a, ws, None, &mut state).unwrap();

    assert_eq!(focus_tab(a, TabDirection::Next, &mut state), Ok(()));
    assert!(!state.pending_sync.focus_change);
}

#[test]
fn tab_in_empty_stack_is_an_error() {
    let config = test_config();
    let mut state = WmState::new();
    let monitor = add_test_monitor(&mut state, &config);
    let ws = workspace(&state, monitor, "1");
    let stack = stack_of(&mut state, ws, &[]);

    assert_eq!(focus_tab(stack, TabDirection::Next, &mut state), Err(WmError::NoSelectedChild));
}

#[test]
fn wrap_then_collapse_restores_the_window() {
    let config = test_config();
    let mut state = WmState::new();
    let monitor = add_test_monitor(&mut state, &config);
    let ws = workspace(&state, monitor, "1");
    let a = tiling_window(&mut state, "A");
    let b = tiling_window(&mut state, "B");
    attach_container(a, ws, None, &mut state).unwrap();
    attach_container(b, ws, None, &mut state).unwrap();
    state.set_tiling_size(a, 400_000);
    let stack = state.add_container(ContainerData::stack());

    wrap_in_stack_container(stack, ws, a, &mut state).unwrap();
    assert_eq!(state.links[a].parent, Some(stack));
    assert_eq!(state.links[stack].parent, Some(ws));
    assert_eq!(state.links[ws].children[0], stack);
    assert_eq!(state.data[stack].tiling_size, 400_000);
    assert_eq!(state.data[a].tiling_size, FULL_TILING_SIZE);

    collapse_stack_container(stack, &mut state).unwrap();
    assert_eq!(state.links[a].parent, Some(ws));
    assert!(state.links[stack].parent.is_none());
    assert_eq!(state.links[ws].children, vec![a, b]);
    assert_eq!(state.data[a].tiling_size, 400_000);
}

#[test]
fn collapse_removes_an_empty_stack() {
    let config = test_config();
    let mut state = WmState::new();
    let monitor = add_test_monitor(&mut state, &config);
    let ws = workspace(&state, monitor, "1");
    let stack = stack_of(&mut state, ws, &[]);

    collapse_stack_container(stack, &mut state).unwrap();
    assert!(state.links[stack].parent.is_none());
    assert_eq!(state.child_count(ws), 0);
}

#[test]
fn unstack_errors() {
    let config = test_config();
    let mut state = WmState::new();
    let monitor = add_test_monitor(&mut state, &config);
    let ws = workspace(&state, monitor, "1");
    let empty = stack_of(&mut state, ws, &[]);
    assert_eq!(unstack(empty, &mut state), Err(WmError::NoSelectedStackWindow));

    let a = tiling_window(&mut state, "A");
    let detached = state.add_container(ContainerData::stack());
    attach_container(a, detached, None, &mut state).unwrap();
    assert_eq!(unstack(a, &mut state), Err(WmError::StackHasNoParent));
}

#[test]
fn attach_twice_is_an_error() {
    let config = test_config();
    let mut state = WmState::new();
    let monitor = add_test_monitor(&mut state, &config);
    let ws = workspace(&state, monitor, "1");
    let a = tiling_window(&mut state, "A");
    attach_container(a, ws, None, &mut state).unwrap();
    assert_eq!(attach_container(a, ws, None, &mut state), Err(WmError::AlreadyAttached));
    assert_eq!(state.data[a].kind, ContainerKind::Window);
}
